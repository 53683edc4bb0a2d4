use fund_admin::contract::Contract;
use fund_admin::decimal::render_u128;
use fund_admin::error::ContractError;
use fund_admin::messages::{ExecuteMsg, GreetResp, InstantiateMsg, QueryAnswer, QueryMsg};

fn s(x: &str) -> String {
    x.to_string()
}

fn init(admins: &[&str], denom: &str, time: u64) -> Contract {
    Contract::instantiate(
        InstantiateMsg {
            admins: admins.iter().map(|a| s(a)).collect(),
            donation_denom: s(denom),
        },
        time,
    )
}

#[test]
fn greet_query1() {
    let contract = init(&[], "eth", 1);
    let answer = contract.query(QueryMsg::Greet {}).unwrap();
    assert_eq!(
        answer,
        QueryAnswer::Greeting(GreetResp { message: s("Hello world!") })
    );
}

#[test]
fn greet_query2() {
    let contract = init(&[], "eth", 1);
    match contract.query(QueryMsg::Greet {}).unwrap() {
        QueryAnswer::Greeting(resp) => {
            assert_eq!(resp, GreetResp { message: s("Hello world!") })
        }
        _ => panic!("wrong answer kind"),
    }
}

#[test]
fn join_time_of_unknown_identity_is_not_found() {
    let contract = init(&["admin1"], "eth", 1);
    let err = contract
        .query(QueryMsg::JoinTime { admin: s("ghost") })
        .unwrap_err();
    assert_eq!(err, ContractError::NotFound { addr: s("ghost") });
}

#[test]
fn join_time_after_leave_is_not_found() {
    let mut contract = init(&["admin1"], "eth", 1);
    contract
        .execute(&s("admin1"), &vec![], 2, ExecuteMsg::Leave {})
        .unwrap();
    let err = contract
        .query(QueryMsg::JoinTime { admin: s("admin1") })
        .unwrap_err();
    assert_eq!(err, ContractError::NotFound { addr: s("admin1") });
}

#[test]
fn admins_after_excludes_exact_join_time() {
    let mut contract = init(&["admin1"], "eth", 100);
    contract
        .execute(
            &s("admin1"),
            &vec![],
            150,
            ExecuteMsg::AddMembers { admins: vec![s("admin2")] },
        )
        .unwrap();

    // admin1 joined at exactly 100: excluded by the strict inequality.
    match contract.query(QueryMsg::AdminsAfterBlockTime { timestamp: 100 }).unwrap() {
        QueryAnswer::Admins(resp) => assert_eq!(resp.admins, vec![s("admin2")]),
        _ => panic!("wrong answer kind"),
    }
    match contract.query(QueryMsg::AdminsAfterBlockTime { timestamp: 99 }).unwrap() {
        QueryAnswer::Admins(resp) => {
            assert_eq!(resp.admins, vec![s("admin1"), s("admin2")])
        }
        _ => panic!("wrong answer kind"),
    }
    match contract.query(QueryMsg::AdminsAfterBlockTime { timestamp: 150 }).unwrap() {
        QueryAnswer::Admins(resp) => assert_eq!(resp.admins, Vec::<String>::new()),
        _ => panic!("wrong answer kind"),
    }
}

#[test]
fn admins_after_is_in_ascending_identity_order() {
    let mut contract = init(&["zeta"], "eth", 10);
    contract
        .execute(
            &s("zeta"),
            &vec![],
            20,
            ExecuteMsg::AddMembers { admins: vec![s("beta"), s("alpha")] },
        )
        .unwrap();
    match contract.query(QueryMsg::AdminsAfterBlockTime { timestamp: 10 }).unwrap() {
        QueryAnswer::Admins(resp) => {
            assert_eq!(resp.admins, vec![s("alpha"), s("beta")])
        }
        _ => panic!("wrong answer kind"),
    }
}

#[test]
fn admins_list_is_sorted_not_in_insertion_order() {
    let mut contract = init(&["mid"], "eth", 1);
    contract
        .execute(
            &s("mid"),
            &vec![],
            2,
            ExecuteMsg::AddMembers { admins: vec![s("zz"), s("aa")] },
        )
        .unwrap();
    assert_eq!(contract.admin_list().admins, vec![s("aa"), s("mid"), s("zz")]);
}

#[test]
fn decimal_rendering_is_exact() {
    assert_eq!(render_u128(0), "0");
    assert_eq!(render_u128(7), "7");
    assert_eq!(render_u128(10), "10");
    assert_eq!(render_u128(120), "120");
    assert_eq!(render_u128(1_000_000_007), "1000000007");
    assert_eq!(render_u128(u128::MAX), "340282366920938463463374607431768211455");
}
