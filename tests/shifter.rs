use mic1::bus::Bus32;
use mic1::shifter::sll8;

#[test]
fn all_ones() {
    let bus32 = Bus32::from([true; 32]);

    let shifted = sll8(bus32, true);

    let result = shifted.data;
    for x in 0..8 {
        assert_eq!(result[x], false);
    }
    for x in 8..32 {
        assert_eq!(result[x], true);
    }
}
