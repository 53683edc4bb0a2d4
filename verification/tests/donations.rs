use fund_admin::contract::Contract;
use fund_admin::error::ContractError;
use fund_admin::messages::{ExecuteMsg, InstantiateMsg};
use fund_admin::payment::{Coin, PaymentFault};

fn s(x: &str) -> String {
    x.to_string()
}

fn coin(amount: u128, denom: &str) -> Coin {
    Coin { denom: s(denom), amount }
}

fn init(admins: &[&str], denom: &str, time: u64) -> Contract {
    Contract::instantiate(
        InstantiateMsg {
            admins: admins.iter().map(|a| s(a)).collect(),
            donation_denom: s(denom),
        },
        time,
    )
}

fn attr_value(attrs: &[fund_admin::response::Attribute], key: &str) -> String {
    attrs.iter().find(|a| a.key == key).unwrap().value.clone()
}

#[test]
fn integration_tests_donations() {
    let mut contract = init(&["admin1", "admin2"], "eth", 1);
    let resp = contract
        .execute(&s("user"), &vec![coin(51, "eth")], 2, ExecuteMsg::Donate {})
        .unwrap();

    assert_eq!(resp.messages.len(), 3);
    assert_eq!(resp.messages[0].to, "admin1");
    assert_eq!(resp.messages[0].amount, 25);
    assert_eq!(resp.messages[1].to, "admin2");
    assert_eq!(resp.messages[1].amount, 25);
    assert_eq!(resp.messages[2].to, "user");
    assert_eq!(resp.messages[2].amount, 1);
}

#[test]
fn contract_donations() {
    let mut contract = init(&["admin1", "admin2"], "eth", 1);
    let resp = contract
        .execute(&s("user"), &vec![coin(51, "eth")], 2, ExecuteMsg::Donate {})
        .unwrap();

    let total: u128 = resp.messages.iter().map(|m| m.amount).sum();
    assert_eq!(total, 51);
    assert_eq!(resp.messages[0].amount, 25);
    assert_eq!(resp.messages[1].amount, 25);
    assert_eq!(resp.messages[2].to, "user");
    assert_eq!(resp.messages[2].amount, 1);
    assert_eq!(attr_value(&resp.attributes, "action"), "donate");
    assert_eq!(attr_value(&resp.attributes, "amount"), "51");
    assert_eq!(attr_value(&resp.attributes, "per_admin"), "25");
}

#[test]
fn contract_donations_exploit() {
    // Re-adding an existing admin must not earn it a second share.
    let mut contract = init(&["admin1", "admin2"], "eth", 1);
    contract
        .execute(
            &s("admin1"),
            &vec![],
            2,
            ExecuteMsg::AddMembers { admins: vec![s("admin1")] },
        )
        .unwrap();

    let resp = contract
        .execute(&s("user"), &vec![coin(55, "eth")], 3, ExecuteMsg::Donate {})
        .unwrap();

    assert_eq!(resp.messages.len(), 3);
    assert_eq!(resp.messages[0].to, "admin1");
    assert_eq!(resp.messages[0].amount, 27);
    assert_eq!(resp.messages[1].to, "admin2");
    assert_eq!(resp.messages[1].amount, 27);
    assert_eq!(resp.messages[2].to, "user");
    assert_eq!(resp.messages[2].amount, 1);
}

#[test]
fn donate_after_duplicate_instantiation() {
    // Initializing with a duplicated identity yields two entries, and a
    // donation of 3 splits 1 + 1 with 1 back to the depositor.
    let mut contract = init(&["admin1", "admin2", "admin1"], "eth", 1);
    assert_eq!(contract.admin_list().admins, vec![s("admin1"), s("admin2")]);

    let resp = contract
        .execute(&s("user"), &vec![coin(3, "eth")], 2, ExecuteMsg::Donate {})
        .unwrap();

    assert_eq!(resp.messages.len(), 3);
    assert_eq!(resp.messages[0].to, "admin1");
    assert_eq!(resp.messages[0].amount, 1);
    assert_eq!(resp.messages[1].to, "admin2");
    assert_eq!(resp.messages[1].amount, 1);
    assert_eq!(resp.messages[2].to, "user");
    assert_eq!(resp.messages[2].amount, 1);
}

#[test]
fn donate_with_no_admins_rejected() {
    // The division guard: a valid payment into an empty registry is refused
    // before any arithmetic runs.
    let mut contract = init(&[], "eth", 1);
    let err = contract
        .execute(&s("user"), &vec![coin(10, "eth")], 2, ExecuteMsg::Donate {})
        .unwrap_err();
    assert_eq!(err, ContractError::NoAdmins);
}

#[test]
fn donate_without_funds_rejected() {
    let mut contract = init(&["admin1"], "eth", 1);
    let err = contract
        .execute(&s("user"), &vec![], 2, ExecuteMsg::Donate {})
        .unwrap_err();
    assert_eq!(err, ContractError::Payment(PaymentFault::NoFunds));
}

#[test]
fn donate_zero_amount_rejected() {
    let mut contract = init(&["admin1"], "eth", 1);
    let err = contract
        .execute(&s("user"), &vec![coin(0, "eth")], 2, ExecuteMsg::Donate {})
        .unwrap_err();
    assert_eq!(err, ContractError::Payment(PaymentFault::NoFunds));
}

#[test]
fn donate_wrong_denomination_rejected() {
    let mut contract = init(&["admin1"], "eth", 1);
    let err = contract
        .execute(&s("user"), &vec![coin(10, "btc")], 2, ExecuteMsg::Donate {})
        .unwrap_err();
    // The fault carries the denomination that was required, not the one sent.
    assert_eq!(
        err,
        ContractError::Payment(PaymentFault::MissingDenom(s("eth")))
    );
}

#[test]
fn donate_multiple_coins_rejected() {
    let mut contract = init(&["admin1"], "eth", 1);
    let err = contract
        .execute(
            &s("user"),
            &vec![coin(10, "eth"), coin(5, "btc")],
            2,
            ExecuteMsg::Donate {},
        )
        .unwrap_err();
    assert_eq!(err, ContractError::Payment(PaymentFault::MultipleDenoms));
}

#[test]
fn donation_is_conserved() {
    // sum(shares) + remainder == total, remainder == total % n < n.
    let cases: Vec<(Vec<&str>, u128)> = vec![
        (vec!["a"], 0),
        (vec!["a", "b"], 1),
        (vec!["a", "b"], 2),
        (vec!["a", "b", "c"], 7),
        (vec!["a", "b", "c"], 3),
        (vec!["x", "y", "z"], 1_000_000_007),
    ];
    for (admins, total) in cases {
        let n = admins.len() as u128;
        let mut contract = init(&admins, "eth", 1);
        let resp = contract
            .execute(&s("donor"), &vec![coin(total, "eth")], 2, ExecuteMsg::Donate {});
        if total == 0 {
            assert_eq!(
                resp.unwrap_err(),
                ContractError::Payment(PaymentFault::NoFunds)
            );
            continue;
        }
        let resp = resp.unwrap();
        let sum: u128 = resp.messages.iter().map(|m| m.amount).sum();
        assert_eq!(sum, total);
        let remainder = resp.messages.last().unwrap().amount;
        assert_eq!(remainder, total % n);
        assert!(remainder < n);
        for m in &resp.messages[..resp.messages.len() - 1] {
            assert_eq!(m.amount, total / n);
        }
    }
}
