use donation::ledger::Contract;
use donation::model::STORAGE_COST;

const BENEFICIARY: &str = "beneficiary";
const NEAR: u128 = 1000000000000000000000000;

#[test]
fn initializes() {
    let contract = Contract::new(BENEFICIARY.to_string());
    assert_eq!(contract.beneficiary(), BENEFICIARY.to_string());
}

#[test]
fn donate() {
    let mut contract = Contract::new(BENEFICIARY.to_string());

    // Make a donation
    let receipt = contract.donate("donor_a".to_string(), 1 * NEAR).unwrap();
    let first_donation = contract.get_donation_for_account("donor_a".to_string());

    // Check the donation was recorded correctly
    assert_eq!(first_donation, 1 * NEAR - STORAGE_COST);
    assert_eq!(receipt.donor, "donor_a".to_string());
    assert_eq!(receipt.net, 1 * NEAR - STORAGE_COST);
    assert_eq!(receipt.new_balance, 1 * NEAR - STORAGE_COST);

    // Make another donation
    contract.donate("donor_b".to_string(), 2 * NEAR).unwrap();
    let second_donation = contract.get_donation_for_account("donor_b".to_string());

    // Check the donation was recorded correctly
    assert_eq!(second_donation, 2 * NEAR - STORAGE_COST);

    // User A makes another donation on top of their original
    contract.donate("donor_a".to_string(), 1 * NEAR).unwrap();
    let first_donation = contract.get_donation_for_account("donor_a".to_string());

    // Check the donation was recorded correctly
    assert_eq!(first_donation, (1 * NEAR - STORAGE_COST) * 2);

    assert_eq!(contract.total_donations(), 2);
}

#[test]
fn lookup_of_unknown_identity_is_zero() {
    let contract = Contract::new(BENEFICIARY.to_string());
    assert_eq!(contract.get_donation_for_account("nobody".to_string()), 0);
    assert_eq!(contract.total_donations(), 0);
}
