use fund_admin::contract::Contract;
use fund_admin::error::ContractError;
use fund_admin::messages::{ExecuteMsg, InstantiateMsg, QueryAnswer, QueryMsg};

const DAY_NANOS: u64 = 60 * 60 * 24 * 1_000_000_000;

fn s(x: &str) -> String {
    x.to_string()
}

fn init(admins: &[&str], denom: &str, time: u64) -> Contract {
    Contract::instantiate(
        InstantiateMsg {
            admins: admins.iter().map(|a| s(a)).collect(),
            donation_denom: s(denom),
        },
        time,
    )
}

fn attr_value(attrs: &[fund_admin::response::Attribute], key: &str) -> String {
    attrs.iter().find(|a| a.key == key).unwrap().value.clone()
}

#[test]
fn integration_tests_add_members() {
    let mut contract = init(&["owner"], "eth", 1);
    let resp = contract
        .execute(
            &s("owner"),
            &vec![],
            2,
            ExecuteMsg::AddMembers { admins: vec![s("user")] },
        )
        .unwrap();

    assert_eq!(attr_value(&resp.attributes, "action"), "add_members");
    assert_eq!(attr_value(&resp.attributes, "added_count"), "1");
    assert_eq!(resp.events.len(), 1);
    assert_eq!(resp.events[0].ty, "admin_added");
    assert_eq!(attr_value(&resp.events[0].attributes, "addr"), "user");
}

#[test]
fn contract_add_members() {
    let mut contract = init(&["owner"], "eth", 1);
    let resp = contract
        .execute(
            &s("owner"),
            &vec![],
            2,
            ExecuteMsg::AddMembers { admins: vec![s("user")] },
        )
        .unwrap();

    assert_eq!(attr_value(&resp.attributes, "action"), "add_members");
    assert_eq!(attr_value(&resp.attributes, "added_count"), "1");
    let added: Vec<_> = resp.events.iter().filter(|e| e.ty == "admin_added").collect();
    assert_eq!(attr_value(&added[0].attributes, "addr"), "user");
}

#[test]
fn integration_tests_unauthorized() {
    let mut contract = init(&[], "eth", 1);
    let err = contract
        .execute(
            &s("user"),
            &vec![],
            2,
            ExecuteMsg::AddMembers { admins: vec![s("user")] },
        )
        .unwrap_err();
    assert_eq!(err, ContractError::Unauthorized { sender: s("user") });
}

#[test]
fn contract_unauthorized() {
    let mut contract = init(&[], "eth", 1);
    let err = contract
        .execute(
            &s("user"),
            &vec![],
            2,
            ExecuteMsg::AddMembers { admins: vec![s("user")] },
        )
        .unwrap_err();
    assert_eq!(err, ContractError::Unauthorized { sender: s("user") });
}

#[test]
fn unauthorized_leaves_registry_unchanged() {
    let mut contract = init(&["owner"], "eth", 1);
    let before = contract.admin_list().admins;
    let err = contract
        .execute(
            &s("user"),
            &vec![],
            2,
            ExecuteMsg::AddMembers { admins: vec![s("user"), s("mallory")] },
        )
        .unwrap_err();
    assert_eq!(err, ContractError::Unauthorized { sender: s("user") });
    assert_eq!(contract.admin_list().admins, before);
}

#[test]
fn integration_tests_execute_ok() {
    let mut contract = init(&["admin1"], "eth", 1);
    contract
        .execute(
            &s("admin1"),
            &vec![],
            2,
            ExecuteMsg::AddMembers { admins: vec![s("admin2")] },
        )
        .unwrap();
    assert_eq!(contract.admin_list().admins, vec![s("admin1"), s("admin2")]);
}

#[test]
fn contract_execute_ok() {
    let mut contract = init(&["admin1"], "eth", 1);
    contract
        .execute(
            &s("admin1"),
            &vec![],
            2,
            ExecuteMsg::AddMembers { admins: vec![s("admin2")] },
        )
        .unwrap();
    assert_eq!(contract.admin_list().admins, vec![s("admin1"), s("admin2")]);
}

#[test]
fn integration_tests_instantiation() {
    let contract = init(&[], "eth", 7);
    assert_eq!(contract.admin_list().admins, Vec::<String>::new());

    let time: u64 = 42;
    let contract = init(&["admin1", "admin2", "admin3"], "eth", time);
    assert_eq!(
        contract.admin_list().admins,
        vec![s("admin1"), s("admin2"), s("admin3")]
    );
    let joined = contract.join_time(&s("admin1")).unwrap();
    assert_eq!(joined.joined, time);
}

#[test]
fn contract_instantiation() {
    let contract = init(&[], "eth", 7);
    assert_eq!(contract.admin_list().admins, Vec::<String>::new());

    let contract = init(&["admin1", "admin2", "admin3"], "eth", 7);
    let mut names = contract.admin_list().admins;
    names.sort();
    assert_eq!(names, vec![s("admin1"), s("admin2"), s("admin3")]);
}

#[test]
fn get_admins_after_block_time() {
    let t0: u64 = 1_000;
    let mut contract = init(&["owner"], "eth", t0);
    contract
        .execute(
            &s("owner"),
            &vec![],
            t0,
            ExecuteMsg::AddMembers { admins: vec![s("admin1")] },
        )
        .unwrap();

    let t1 = t0 + DAY_NANOS + 1;
    contract
        .execute(
            &s("owner"),
            &vec![],
            t1,
            ExecuteMsg::AddMembers { admins: vec![s("admin2"), s("admin3")] },
        )
        .unwrap();

    let answer = contract
        .query(QueryMsg::AdminsAfterBlockTime { timestamp: t0 })
        .unwrap();
    match answer {
        QueryAnswer::Admins(resp) => {
            assert_eq!(resp.admins, vec![s("admin2"), s("admin3")]);
        }
        _ => panic!("wrong answer kind"),
    }
}

#[test]
fn leave_removes_only_the_caller() {
    let mut contract = init(&["admin1", "admin2"], "eth", 1);
    let resp = contract
        .execute(&s("admin1"), &vec![], 2, ExecuteMsg::Leave {})
        .unwrap();
    assert_eq!(attr_value(&resp.attributes, "action"), "leave");
    assert_eq!(attr_value(&resp.attributes, "sender"), "admin1");
    assert_eq!(contract.admin_list().admins, vec![s("admin2")]);
}

#[test]
fn leave_by_non_member_changes_nothing() {
    let mut contract = init(&["admin1"], "eth", 5);
    let resp = contract
        .execute(&s("stranger"), &vec![], 6, ExecuteMsg::Leave {})
        .unwrap();
    assert_eq!(attr_value(&resp.attributes, "action"), "leave");
    assert_eq!(contract.admin_list().admins, vec![s("admin1")]);
    assert_eq!(contract.join_time(&s("admin1")).unwrap().joined, 5);
}

#[test]
fn readding_overwrites_join_time() {
    let mut contract = init(&["admin1"], "eth", 5);
    contract
        .execute(
            &s("admin1"),
            &vec![],
            9,
            ExecuteMsg::AddMembers { admins: vec![s("admin1")] },
        )
        .unwrap();
    assert_eq!(contract.admin_list().admins, vec![s("admin1")]);
    assert_eq!(contract.join_time(&s("admin1")).unwrap().joined, 9);
}

#[test]
fn duplicate_in_one_call_stays_single_entry() {
    let mut contract = init(&["owner"], "eth", 1);
    let resp = contract
        .execute(
            &s("owner"),
            &vec![],
            3,
            ExecuteMsg::AddMembers { admins: vec![s("newbie"), s("newbie")] },
        )
        .unwrap();
    // The reported count is the raw input length, but the registry holds one
    // entry, with the join-time of the last write.
    assert_eq!(attr_value(&resp.attributes, "added_count"), "2");
    assert_eq!(resp.events.len(), 2);
    assert_eq!(contract.admin_list().admins, vec![s("newbie"), s("owner")]);
    assert_eq!(contract.join_time(&s("newbie")).unwrap().joined, 3);
}

#[test]
fn authorization_is_exactly_membership() {
    let contract = init(&["admin1"], "eth", 1);
    assert!(contract.can_add_members(&s("admin1")));
    assert!(!contract.can_add_members(&s("user")));
}
