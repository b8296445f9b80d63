use donation::ledger::Contract;
use donation::model::STORAGE_COST;

fn ledger_with(n: usize) -> Contract {
    let mut contract = Contract::new("recipient".to_string());
    for i in 0..n {
        contract
            .donate(format!("donor{:03}", i), STORAGE_COST + (i as u128) + 1)
            .unwrap();
    }
    contract
}

#[test]
fn pages_concatenate_exactly_once() {
    let contract = ledger_with(5);
    let full = contract.get_donations(None, Some(5));
    assert_eq!(full.len(), 5);
    let mut joined = Vec::new();
    joined.extend(contract.get_donations(Some(0), Some(2)));
    joined.extend(contract.get_donations(Some(2), Some(2)));
    joined.extend(contract.get_donations(Some(4), Some(2)));
    assert_eq!(joined, full);
}

#[test]
fn page_holds_at_most_limit_entries() {
    let contract = ledger_with(7);
    assert_eq!(contract.get_donations(None, Some(3)).len(), 3);
    assert_eq!(contract.get_donations(Some(5), Some(10)).len(), 2);
    assert_eq!(contract.get_donations(None, Some(0)).len(), 0);
}

#[test]
fn default_limit_is_fifty() {
    let contract = ledger_with(60);
    let page = contract.get_donations(None, None);
    assert_eq!(page.len(), 50);
    let full = contract.get_donations(None, Some(60));
    assert_eq!(page[..], full[..50]);
}

#[test]
fn start_past_end_is_empty() {
    let contract = ledger_with(3);
    assert!(contract.get_donations(Some(3), None).is_empty());
    assert!(contract.get_donations(Some(1000), Some(10)).is_empty());
    let fresh = Contract::new("recipient".to_string());
    assert!(fresh.get_donations(None, None).is_empty());
}

#[test]
fn enumeration_is_stable_insertion_order() {
    let mut contract = Contract::new("recipient".to_string());
    contract.donate("first".to_string(), STORAGE_COST + 1).unwrap();
    contract.donate("second".to_string(), STORAGE_COST + 2).unwrap();
    // A repeat contribution updates in place; it does not reorder entries.
    contract.donate("first".to_string(), STORAGE_COST + 3).unwrap();
    let page = contract.get_donations(None, None);
    assert_eq!(page[0], ("first".to_string(), 4));
    assert_eq!(page[1], ("second".to_string(), 2));
}

#[test]
fn from_state_round_trip() {
    let contract = ledger_with(3);
    let entries = contract.get_donations(None, Some(3));
    let rebuilt = Contract::from_state(contract.beneficiary(), entries.clone()).unwrap();
    assert_eq!(rebuilt.get_donations(None, Some(3)), entries);
    assert_eq!(rebuilt.total_donations(), 3);
    assert_eq!(rebuilt.beneficiary(), contract.beneficiary());
}

#[test]
fn from_state_rejects_ill_formed_fields() {
    let duplicated = vec![("x".to_string(), 1u128), ("x".to_string(), 2u128)];
    assert!(Contract::from_state("recipient".to_string(), duplicated).is_none());
    assert!(Contract::from_state(String::new(), Vec::new()).is_none());
}
