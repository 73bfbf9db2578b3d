use perlica_logic::bitset::{BitsetManager, BitsetType};

#[test]
fn setting_twice_counts_once() {
    let mut m = BitsetManager::new();
    m.set(BitsetType::Wiki, 5);
    m.set(BitsetType::Wiki, 5);
    assert!(m.has(BitsetType::Wiki, 5));
    assert_eq!(m.count(BitsetType::Wiki), 1);
    m.set(BitsetType::Wiki, 3);
    assert_eq!(m.count(BitsetType::Wiki), 2);
    assert_eq!(m.get_bits(BitsetType::Wiki), vec![3, 5]);
    assert_eq!(m.count(BitsetType::FoundItem), 0);
}

#[test]
fn set_then_unset_restores_the_bits() {
    let mut m = BitsetManager::new();
    m.set(BitsetType::Prts, 9);
    m.set(BitsetType::Prts, 2);
    m.set(BitsetType::GotItem, 1);
    let before = m.get_bits(BitsetType::Prts);
    m.set(BitsetType::Prts, 4);
    m.unset(BitsetType::Prts, 4);
    assert_eq!(m.get_bits(BitsetType::Prts), before);
    assert_eq!(m.get_bits(BitsetType::Prts), vec![2, 9]);
    assert_eq!(m.count(BitsetType::Prts), 2);
    assert_eq!(m.get_bits(BitsetType::GotItem), vec![1]);
}
