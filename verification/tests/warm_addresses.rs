use evm2::primitives::{Address, Word};
use evm2::vecmap::{VecMap, VecSet};
use evm2::warm_addresses::{short_address, WarmAddresses, SHORT_ADDRESS_CAP};

fn address_1234() -> Address {
    Address::new(0x1234567890123456, 0x7890123456789012, 0x34567890)
}

#[test]
fn test_initialization() {
    let warm_addresses = WarmAddresses::new();
    assert_eq!(warm_addresses.precompiles().len(), 0);
    assert_eq!(warm_addresses.short_address_bits_len(), SHORT_ADDRESS_CAP);
    assert!(!warm_addresses.any_short_address_bit());
    assert!(warm_addresses.coinbase().is_none());

    let default_addresses = WarmAddresses::default();
    assert_eq!(default_addresses.precompiles().len(), 0);
    assert_eq!(default_addresses.short_address_bits_len(), SHORT_ADDRESS_CAP);
    assert!(!default_addresses.any_short_address_bit());
    assert!(default_addresses.coinbase().is_none());
    assert_eq!(default_addresses.access_list().len(), warm_addresses.access_list().len());
}

#[test]
fn test_coinbase_management() {
    let mut warm_addresses = WarmAddresses::new();
    let coinbase_addr = address_1234();

    warm_addresses.set_coinbase(coinbase_addr);
    assert_eq!(warm_addresses.coinbase(), Some(coinbase_addr));
    assert!(warm_addresses.is_warm(&coinbase_addr));

    warm_addresses.clear_coinbase_and_access_list();
    assert!(warm_addresses.coinbase().is_none());
    assert!(!warm_addresses.is_warm(&coinbase_addr));
}

#[test]
fn test_short_address_precompiles() {
    let mut warm_addresses = WarmAddresses::new();

    let short_addr1 = Address::with_last_byte(1);
    let short_addr2 = Address::with_last_byte(5);

    let mut precompiles = VecSet::new();
    precompiles.insert(short_addr1);
    precompiles.insert(short_addr2);

    warm_addresses.set_precompile_addresses(&precompiles);

    assert_eq!(warm_addresses.precompiles().len(), precompiles.len());
    assert!(warm_addresses.precompiles().contains(&short_addr1));
    assert!(warm_addresses.precompiles().contains(&short_addr2));
    assert!(warm_addresses.is_short_address_bit_set(1));
    assert!(warm_addresses.is_short_address_bit_set(5));
    assert!(!warm_addresses.is_short_address_bit_set(0));

    assert!(warm_addresses.is_warm(&short_addr1));
    assert!(warm_addresses.is_warm(&short_addr2));
    assert!(!warm_addresses.is_warm(&Address::with_last_byte(20)));
}

#[test]
fn test_regular_address_precompiles() {
    let mut warm_addresses = WarmAddresses::new();

    let regular_addr = address_1234();
    let boundary_addr = Address::new(0, 0, 300);

    let mut precompiles = VecSet::new();
    precompiles.insert(regular_addr);
    precompiles.insert(boundary_addr);

    warm_addresses.set_precompile_addresses(&precompiles);

    assert_eq!(warm_addresses.precompiles().len(), precompiles.len());
    assert!(warm_addresses.precompiles().contains(&regular_addr));
    assert!(warm_addresses.precompiles().contains(&boundary_addr));
    assert!(!warm_addresses.any_short_address_bit());

    assert!(warm_addresses.is_warm(&regular_addr));
    assert!(warm_addresses.is_warm(&boundary_addr));
    assert!(!warm_addresses.is_warm(&Address::new(0x0987654321098765, 0x4321098765432109, 0x87654321)));
}

#[test]
fn test_storage_warm_via_access_list() {
    let mut warm_addresses = WarmAddresses::new();
    let addr = address_1234();
    let key = Word::from_u64(7);

    let mut slots = VecSet::new();
    slots.insert(key);
    let mut access_list = VecMap::new();
    access_list.insert(addr, slots);
    warm_addresses.set_access_list(access_list);

    assert!(warm_addresses.is_warm(&addr));
    assert!(warm_addresses.is_storage_warm(&addr, &key));
    assert!(!warm_addresses.is_storage_warm(&addr, &Word::from_u64(8)));
}

#[test]
fn short_address_boundary() {
    assert_eq!(short_address(&Address::new(0, 0, 299)), Some(299));
    assert_eq!(short_address(&Address::new(0, 0, 300)), None);
    assert_eq!(short_address(&Address::new(0, 1, 1)), None);
    assert_eq!(short_address(&Address::new(1, 0, 1)), None);
}

#[test]
fn replacing_precompiles_clears_old_bits() {
    let mut warm_addresses = WarmAddresses::new();
    let mut first = VecSet::new();
    first.insert(Address::with_last_byte(7));
    warm_addresses.set_precompile_addresses(&first);
    assert!(warm_addresses.is_warm(&Address::with_last_byte(7)));

    let mut second = VecSet::new();
    second.insert(Address::with_last_byte(9));
    warm_addresses.set_precompile_addresses(&second);
    assert!(!warm_addresses.is_warm(&Address::with_last_byte(7)));
    assert!(warm_addresses.is_warm(&Address::with_last_byte(9)));
    assert!(warm_addresses.is_cold(&Address::with_last_byte(7)));
}

#[test]
fn mixed_precompiles_find_long_addresses() {
    let mut warm_addresses = WarmAddresses::new();
    let mut precompiles = VecSet::new();
    precompiles.insert(Address::with_last_byte(2));
    precompiles.insert(address_1234());
    warm_addresses.set_precompile_addresses(&precompiles);
    assert!(warm_addresses.is_warm(&Address::with_last_byte(2)));
    assert!(warm_addresses.is_warm(&address_1234()));
    assert!(!warm_addresses.is_warm(&Address::with_last_byte(3)));
}
