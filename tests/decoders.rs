use mic1::decoders::{decoder_2x4, decoder_9x512};

#[test]
fn dec_2x4() {
    assert_eq!([true, false, false, false], decoder_2x4(false, false));
    assert_eq!([false, true, false, false], decoder_2x4(true, false));
    assert_eq!([false, false, true, false], decoder_2x4(false, true));
    assert_eq!([false, false, false, true], decoder_2x4(true, true));
}

#[test]
fn dec_all_zero() {
    let input = decoder_9x512([false; 9]);
    assert_eq!(true, input[0]);
    for x in 1..512 {
        assert_eq!(false, input[x]);
    }
}

#[test]
fn dec_last_true() {
    let input = decoder_9x512([false, false, false, false, false, false, false, false, true]);
    for x in 0..512 {
        if x == 256 {
            assert_eq!(true, input[x], "Index: {}", x);
        } else {
            assert_eq!(false, input[x], "Index: {}", x);
        }
    }
}
