use ezformant::formant::{formants_with_response, FORMANT_SLOTS};

#[test]
fn formant_slots_are_padded() {
    let r = formants_with_response(&[654.0, 1131.0], &[0.5, 0.25, 0.125], 0.0);
    assert_eq!(r, vec![654.0, 1131.0, 0.0, 0.0, 0.5, 0.25, 0.125]);
}

#[test]
fn formant_slots_keep_the_lowest_four() {
    let formants = [654.0, 1131.0, 2382.0, 2826.0, 3539.0];
    let r = formants_with_response(&formants, &[9.0], 0.0);
    assert_eq!(FORMANT_SLOTS, 4);
    assert_eq!(r, vec![654.0, 1131.0, 2382.0, 2826.0, 9.0]);
}

#[test]
fn formant_slots_without_response() {
    let r = formants_with_response::<i32>(&[], &[], -1);
    assert_eq!(r, vec![-1, -1, -1, -1]);
}
