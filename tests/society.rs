use society::{HostAccount, ProposalKind, ProposalStatus, Society, SocietyError};

const NEAR: u128 = 1_000_000_000_000_000_000_000_000;
const LOCK: u64 = 600_000_000_000;

fn host() -> HostAccount {
    HostAccount {
        balance: 100 * NEAR,
        locked_balance: 0,
        storage_usage: 307_314,
        storage_byte_cost: 10_000_000_000_000_000_000,
    }
}

fn new_contract() -> Society {
    Society::init(vec!["bob".to_string()]).unwrap()
}

fn member_total(contract: &Society) -> usize {
    contract.member_list(None, None).unwrap().len()
}

fn call_vote_approve(contract: &mut Society, signer: &str, proposal_id: u64) {
    contract.vote_approve(signer.to_string(), proposal_id).unwrap();
}

fn users() -> Vec<String> {
    [
        "alice", "bob", "carol", "chuck", "craig", "dave", "eve", "mallory", "peggy", "trent",
        "walter", "arthur", "paul",
    ]
    .iter()
    .map(|s| s.to_string())
    .collect()
}

fn society_of(members: &[&str]) -> Society {
    Society::init(members.iter().map(|s| s.to_string()).collect()).unwrap()
}

fn fund_script(amount: u128) -> String {
    format!("{{\"fund\": \"{}\"}}", amount)
}

#[test]
fn balance() {
    let contract = new_contract();
    assert_eq!(86926860000000000000000000, contract.balance(&host()));
}

#[test]
fn member_list() {
    let contract = new_contract();
    assert_eq!(vec!["bob".to_string()], contract.member_list(None, None).unwrap());
}

#[test]
fn is_member() {
    let contract = new_contract();
    assert!(contract.is_member("bob".to_string()));
}

#[test]
fn add_fund_proposal() {
    let mut contract = new_contract();
    let proposal_id = contract
        .add_fund_proposal(
            "bob".to_string(),
            0,
            &host(),
            "a".to_string(),
            "b".to_string(),
            "{\"fund\": \"1000000000000000000000000\"}".to_string(),
        )
        .unwrap();
    assert_eq!(0, proposal_id);
}

#[test]
fn is_not_member() {
    let contract = new_contract();
    assert!(!contract.is_member("charlie".to_string()));
}

#[test]
fn proposal_list_empty() {
    let contract = new_contract();
    assert_eq!(0, contract.proposal_list(None, None).unwrap().len());
}

#[test]
fn add_member_proposal_for_exist() {
    let mut contract = new_contract();
    assert_eq!(
        Err(SocietyError::AlreadyMember),
        contract.add_member_proposal("bob".to_string(), 0, None, None)
    );
}

#[test]
fn society_add_member_proposal() {
    let mut contract = new_contract();
    assert_eq!(
        0,
        contract
            .add_member_proposal("a".repeat(64), 0, Some("a".repeat(170)), Some("a".repeat(1000)))
            .unwrap()
    );
    assert_eq!(1, contract.proposal_list(None, None).unwrap().len());
}

#[test]
fn society_simulator_add_member_proposal() {
    let mut contract = society_of(&["contract"]);
    let list = users();
    assert_eq!(0, contract.proposal_list(None, None).unwrap().len());
    contract
        .add_member_proposal(list[0].clone(), 0, Some("a".repeat(170)), Some("a".repeat(1000)))
        .unwrap();
    assert_eq!(1, contract.proposal_list(None, None).unwrap().len());
}

#[test]
fn vote() {
    let mut contract = society_of(&["contract"]);
    let list = users();
    for user in &list {
        contract
            .add_member_proposal(user.clone(), 0, Some("a".repeat(170)), Some("a".repeat(1000)))
            .unwrap();
    }
    let actual = contract.proposal_list(None, None).unwrap();
    assert_eq!(list.len(), actual.len());
    assert_eq!(1, member_total(&contract));

    // one member: one approval admits the second
    call_vote_approve(&mut contract, "contract", 0);
    assert_eq!(2, member_total(&contract));

    call_vote_approve(&mut contract, "contract", 1);
    call_vote_approve(&mut contract, &list[0], 1);
    assert_eq!(3, member_total(&contract));

    call_vote_approve(&mut contract, "contract", 2);
    call_vote_approve(&mut contract, &list[0], 2);
    assert_eq!(4, member_total(&contract));

    call_vote_approve(&mut contract, "contract", 3);
    call_vote_approve(&mut contract, &list[0], 3);
    call_vote_approve(&mut contract, &list[1], 3);
    assert_eq!(5, member_total(&contract));

    call_vote_approve(&mut contract, "contract", 4);
    call_vote_approve(&mut contract, &list[0], 4);
    call_vote_approve(&mut contract, &list[1], 4);
    assert_eq!(6, member_total(&contract));

    call_vote_approve(&mut contract, "contract", 5);
    call_vote_approve(&mut contract, &list[0], 5);
    call_vote_approve(&mut contract, &list[1], 5);
    call_vote_approve(&mut contract, &list[2], 5);
    assert_eq!(7, member_total(&contract));

    call_vote_approve(&mut contract, "contract", 6);
    call_vote_approve(&mut contract, &list[0], 6);
    call_vote_approve(&mut contract, &list[1], 6);
    call_vote_approve(&mut contract, &list[2], 6);
    assert_eq!(8, member_total(&contract));

    call_vote_approve(&mut contract, "contract", 7);
    call_vote_approve(&mut contract, &list[0], 7);
    call_vote_approve(&mut contract, &list[1], 7);
    call_vote_approve(&mut contract, &list[2], 7);
    call_vote_approve(&mut contract, &list[3], 7);
    assert_eq!(9, member_total(&contract));

    call_vote_approve(&mut contract, "contract", 8);
    call_vote_approve(&mut contract, &list[0], 8);
    call_vote_approve(&mut contract, &list[1], 8);
    call_vote_approve(&mut contract, &list[2], 8);
    call_vote_approve(&mut contract, &list[3], 8);
    assert_eq!(10, member_total(&contract));

    call_vote_approve(&mut contract, "contract", 9);
    call_vote_approve(&mut contract, &list[0], 9);
    call_vote_approve(&mut contract, &list[1], 9);
    call_vote_approve(&mut contract, &list[2], 9);
    call_vote_approve(&mut contract, &list[3], 9);
    call_vote_approve(&mut contract, &list[4], 9);
    assert_eq!(11, member_total(&contract));

    call_vote_approve(&mut contract, "contract", 10);
    call_vote_approve(&mut contract, &list[0], 10);
    call_vote_approve(&mut contract, &list[1], 10);
    call_vote_approve(&mut contract, &list[2], 10);
    call_vote_approve(&mut contract, &list[3], 10);
    call_vote_approve(&mut contract, &list[4], 10);
    assert_eq!(12, member_total(&contract));

    call_vote_approve(&mut contract, "contract", 11);
    call_vote_approve(&mut contract, &list[0], 11);
    call_vote_approve(&mut contract, &list[1], 11);
    call_vote_approve(&mut contract, &list[2], 11);
    call_vote_approve(&mut contract, &list[3], 11);
    call_vote_approve(&mut contract, &list[4], 11);
    call_vote_approve(&mut contract, &list[6], 11);
    assert_eq!(13, member_total(&contract));
}

#[test]
fn init_needs_distinct_members() {
    assert!(matches!(Society::init(vec![]), Err(SocietyError::NoInitialMembers)));
    assert!(matches!(
        Society::init(vec!["a".to_string(), "b".to_string(), "a".to_string()]),
        Err(SocietyError::AlreadyMember)
    ));
}

#[test]
fn round_trip_admits_one_member() {
    let mut contract = society_of(&["m1"]);
    let id = contract.add_member_proposal("x".to_string(), 0, None, None).unwrap();
    assert_eq!(None, contract.vote_approve("m1".to_string(), id).unwrap().map(|t| t.amount));
    assert_eq!(vec!["m1".to_string(), "x".to_string()], contract.member_list(None, None).unwrap());
    let listed = contract.proposal_list(None, None).unwrap();
    assert_eq!(ProposalStatus::Accepted, listed[0].status);
    assert_eq!(1, listed[0].vote.approve);

    let id = contract.add_member_proposal("y".to_string(), 0, None, None).unwrap();
    contract.vote_approve("m1".to_string(), id).unwrap();
    assert_eq!(2, member_total(&contract));
    assert_eq!(ProposalStatus::Vote, contract.proposal_list(None, None).unwrap()[1].status);
    contract.vote_approve("x".to_string(), id).unwrap();
    assert_eq!(3, member_total(&contract));
    assert_eq!(ProposalStatus::Accepted, contract.proposal_list(None, None).unwrap()[1].status);
}

#[test]
fn second_vote_is_refused_without_change() {
    let mut contract = society_of(&["m1", "m2", "m3"]);
    let id = contract.add_member_proposal("x".to_string(), 0, None, None).unwrap();
    assert!(contract.can_vote(id, "m1".to_string()));
    contract.vote_reject("m1".to_string(), id).unwrap();
    assert!(!contract.can_vote(id, "m1".to_string()));
    assert_eq!(Err(SocietyError::AlreadyVoted), contract.vote_approve("m1".to_string(), id).map(|_| ()));
    let listed = contract.proposal_list(None, None).unwrap();
    assert_eq!(0, listed[0].vote.approve);
    assert_eq!(1, listed[0].vote.reject);
    assert_eq!(ProposalStatus::Vote, listed[0].status);
}

#[test]
fn decided_proposal_takes_no_votes() {
    let mut contract = society_of(&["m1", "m2", "m3"]);
    let id = contract.add_member_proposal("x".to_string(), 0, None, None).unwrap();
    contract.vote_reject("m1".to_string(), id).unwrap();
    contract.vote_reject("m2".to_string(), id).unwrap();
    let listed = contract.proposal_list(None, None).unwrap();
    assert_eq!(ProposalStatus::Rejected, listed[0].status);
    assert_eq!(Err(SocietyError::ProposalClosed), contract.vote_approve("m3".to_string(), id).map(|_| ()));
    let listed = contract.proposal_list(None, None).unwrap();
    assert_eq!(0, listed[0].vote.approve);
    assert_eq!(2, listed[0].vote.reject);
    // the rejected author may file again at once
    assert_eq!(Ok(1), contract.add_member_proposal("x".to_string(), 0, None, None));
}

#[test]
fn vote_errors() {
    let mut contract = society_of(&["m1", "m2"]);
    assert_eq!(Err(SocietyError::NotAMember), contract.vote_approve("z".to_string(), 0).map(|_| ()));
    assert_eq!(
        Err(SocietyError::ProposalNotFound),
        contract.vote_approve("m1".to_string(), 0).map(|_| ())
    );
    assert!(contract.can_vote(5, "m1".to_string()));
}

#[test]
fn tie_among_all_resets_to_draft_and_releases_fund() {
    let mut contract = society_of(&["m1", "m2"]);
    let before = contract.balance(&host());
    let id = contract
        .add_fund_proposal("m1".to_string(), 0, &host(), "t".to_string(), "d".to_string(), fund_script(NEAR))
        .unwrap();
    assert_eq!(before - NEAR, contract.balance(&host()));
    contract.vote_approve("m1".to_string(), id).unwrap();
    contract.vote_reject("m2".to_string(), id).unwrap();
    let listed = contract.proposal_list(None, None).unwrap();
    assert_eq!(ProposalStatus::Draft, listed[0].status);
    assert_eq!(0, listed[0].vote.approve);
    assert_eq!(0, listed[0].vote.reject);
    assert_eq!(before, contract.balance(&host()));
    assert!(contract.can_vote(id, "m1".to_string()));
    assert_eq!(Err(SocietyError::ProposalClosed), contract.vote_approve("m1".to_string(), id).map(|_| ()));
}

#[test]
fn draft_is_resubmitted_in_place_after_lock() {
    let mut contract = society_of(&["m1", "m2"]);
    let id = contract.add_member_proposal("x".to_string(), 100, None, None).unwrap();
    assert_eq!(Err(SocietyError::ProposalLocked), contract.add_member_proposal("x".to_string(), 100 + LOCK - 1, None, None));
    assert_eq!(Err(SocietyError::NotInDraft), contract.add_member_proposal("x".to_string(), 100 + LOCK, None, None));
    contract.vote_approve("m1".to_string(), id).unwrap();
    contract.vote_reject("m2".to_string(), id).unwrap();
    assert_eq!(Err(SocietyError::ProposalLocked), contract.add_member_proposal("x".to_string(), 50, None, None));
    assert_eq!(
        Ok(id),
        contract.add_member_proposal("x".to_string(), 200 + LOCK, Some("again".to_string()), None)
    );
    let listed = contract.proposal_list(None, None).unwrap();
    assert_eq!(1, listed.len());
    assert_eq!(ProposalStatus::Vote, listed[0].status);
    assert_eq!("again", listed[0].title);
    assert_eq!(200 + LOCK, listed[0].timestamp);
    assert_eq!(ProposalKind::MemberRequest, listed[0].kind);
}

#[test]
fn accepted_fund_request_orders_payout() {
    let mut contract = society_of(&["m1", "m2", "m3"]);
    let before = contract.balance(&host());
    let id = contract
        .add_fund_proposal("m2".to_string(), 0, &host(), "t".to_string(), "d".to_string(), fund_script(3 * NEAR))
        .unwrap();
    assert!(contract.vote_approve("m1".to_string(), id).unwrap().is_none());
    let payout = contract.vote_approve("m3".to_string(), id).unwrap().unwrap();
    assert_eq!("m2", payout.receiver);
    assert_eq!(3 * NEAR, payout.amount);
    assert_eq!(before, contract.balance(&host()));
    assert_eq!(3, member_total(&contract));
}

#[test]
fn rejected_fund_request_releases_reservation() {
    let mut contract = society_of(&["m1", "m2", "m3"]);
    let before = contract.balance(&host());
    let id = contract
        .add_fund_proposal("m1".to_string(), 0, &host(), "t".to_string(), "d".to_string(), fund_script(5))
        .unwrap();
    let other = contract
        .add_fund_proposal("m2".to_string(), 0, &host(), "t".to_string(), "d".to_string(), fund_script(7))
        .unwrap();
    assert_eq!(before - 12, contract.balance(&host()));
    assert!(contract.vote_reject("m1".to_string(), id).unwrap().is_none());
    assert!(contract.vote_reject("m3".to_string(), id).unwrap().is_none());
    assert_eq!(before - 7, contract.balance(&host()));
    assert_eq!(1, other);
}

#[test]
fn fund_request_errors() {
    let mut contract = society_of(&["m1"]);
    let spendable = contract.balance(&host());
    let add = |c: &mut Society, who: &str, script: String| {
        c.add_fund_proposal(who.to_string(), 0, &host(), "t".to_string(), "d".to_string(), script)
    };
    assert_eq!(Err(SocietyError::NotAMember), add(&mut contract, "z", fund_script(1)));
    assert_eq!(Err(SocietyError::InvalidScript), add(&mut contract, "m1", "{}".to_string()));
    assert_eq!(Err(SocietyError::InsufficientFunds), add(&mut contract, "m1", fund_script(spendable)));
    assert_eq!(Ok(0), add(&mut contract, "m1", fund_script(spendable - 1)));
    assert_eq!(1, contract.balance(&host()));
    assert_eq!(
        Err(SocietyError::FieldTooLong),
        contract.add_member_proposal("y".to_string(), 0, Some("a".repeat(171)), None)
    );
    assert_eq!(
        Err(SocietyError::FieldTooLong),
        contract.add_member_proposal("y".to_string(), 0, None, Some("a".repeat(1001)))
    );
}

#[test]
fn balance_never_negative() {
    let contract = new_contract();
    let poor = HostAccount { balance: NEAR, locked_balance: 0, storage_usage: 10, storage_byte_cost: 1 };
    assert_eq!(0, contract.balance(&poor));
    let huge = HostAccount { balance: u128::MAX, locked_balance: 0, storage_usage: u64::MAX, storage_byte_cost: u128::MAX };
    assert_eq!(0, contract.balance(&huge));
}

#[test]
fn member_list_pages() {
    let contract = society_of(&["a", "b", "c", "d", "e"]);
    assert_eq!(Err(SocietyError::InvalidArgument), contract.member_list(None, Some(0)));
    assert_eq!(Err(SocietyError::OutOfRange), contract.member_list(Some(5), None));
    assert_eq!(vec!["b".to_string(), "c".to_string()], contract.member_list(Some(1), Some(2)).unwrap());
    assert_eq!(vec!["d".to_string(), "e".to_string()], contract.member_list(Some(3), Some(10)).unwrap());
    assert_eq!(5, contract.member_list(None, None).unwrap().len());
}

#[test]
fn proposal_list_pages() {
    let mut contract = society_of(&["m1", "m2", "m3"]);
    for who in ["p", "q"] {
        contract.add_member_proposal(who.to_string(), 0, None, None).unwrap();
    }
    let page = contract.proposal_list(Some(1), Some(5)).unwrap();
    assert_eq!(1, page.len());
    assert_eq!(1, page[0].id);
    assert_eq!("q", page[0].author);
    // a page may start at the end of the proposals, not past it
    assert_eq!(Ok(0), contract.proposal_list(Some(2), None).map(|p| p.len()));
    assert_eq!(Err(SocietyError::OutOfRange), contract.proposal_list(Some(3), None).map(|p| p.len()));
    assert_eq!(Err(SocietyError::InvalidArgument), contract.proposal_list(None, Some(0)).map(|p| p.len()));
    assert_eq!(1, contract.proposal_list(None, Some(1)).unwrap().len());
}

#[test]
fn proposal_pages_are_bounded_by_proposals() {
    let empty = society_of(&["m1", "m2", "m3"]);
    assert_eq!(Ok(0), empty.proposal_list(None, None).map(|p| p.len()));
    assert_eq!(Err(SocietyError::OutOfRange), empty.proposal_list(Some(1), None).map(|p| p.len()));
    assert_eq!(Err(SocietyError::OutOfRange), empty.proposal_list(Some(2), None).map(|p| p.len()));

    let mut one = society_of(&["m1"]);
    for who in ["p", "q", "r"] {
        one.add_member_proposal(who.to_string(), 0, None, None).unwrap();
    }
    let page = one.proposal_list(Some(2), None).unwrap();
    assert_eq!(1, page.len());
    assert_eq!(2, page[0].id);
    assert_eq!("r", page[0].author);
}

#[test]
fn member_pages_cover_members_once() {
    let contract = society_of(&["a", "b", "c", "d", "e"]);
    let mut seen: Vec<String> = Vec::new();
    let mut offset: u64 = 0;
    while offset < 5 {
        let page = contract.member_list(Some(offset), Some(2)).unwrap();
        assert!(page.len() <= 2);
        seen.extend(page);
        offset += 2;
    }
    assert_eq!(contract.member_list(None, None).unwrap(), seen);
}

#[test]
fn vote_counts_for_or_against() {
    let mut contract = society_of(&["m1", "m2", "m3"]);
    let id = contract.add_member_proposal("x".to_string(), 0, None, None).unwrap();
    assert!(contract.vote("m1".to_string(), id, false).unwrap().is_none());
    assert!(contract.vote("m2".to_string(), id, true).unwrap().is_none());
    assert_eq!(Err(SocietyError::AlreadyVoted), contract.vote("m2".to_string(), id, false).map(|_| ()));
    let listed = contract.proposal_list(None, None).unwrap();
    assert_eq!(1, listed[0].vote.approve);
    assert_eq!(1, listed[0].vote.reject);
    assert_eq!(ProposalStatus::Vote, listed[0].status);
}

#[test]
fn parts_round_trip() {
    let mut contract = society_of(&["m1", "m2", "m3"]);
    let id = contract
        .add_fund_proposal("m1".to_string(), 0, &host(), "t".to_string(), "d".to_string(), fund_script(9))
        .unwrap();
    contract.vote_approve("m2".to_string(), id).unwrap();
    let (members, proposals, voters, reserved) = contract.into_parts();
    assert_eq!(3, members.len());
    assert_eq!(vec![vec!["m2".to_string()]], voters);
    assert_eq!(9, reserved);
    let mut back = Society::restore(members, proposals, voters, reserved).unwrap();
    assert_eq!(Err(SocietyError::AlreadyVoted), back.vote_approve("m2".to_string(), id).map(|_| ()));
    let payout = back.vote_approve("m3".to_string(), id).unwrap().unwrap();
    assert_eq!(9, payout.amount);
}

#[test]
fn restore_refuses_inconsistent_parts() {
    let mut contract = society_of(&["m1", "m2", "m3"]);
    contract
        .add_fund_proposal("m1".to_string(), 0, &host(), "t".to_string(), "d".to_string(), fund_script(9))
        .unwrap();
    let (members, proposals, voters, _) = contract.into_parts();
    assert!(Society::restore(members.clone(), vec![], vec![], 0).is_some());
    assert!(Society::restore(vec!["a".to_string(), "a".to_string()], vec![], vec![], 0).is_none());
    assert!(Society::restore(members.clone(), vec![], vec![], 1).is_none());
    assert!(Society::restore(members.clone(), proposals, voters.clone(), 8).is_none());
    assert!(Society::restore(members, vec![], voters, 0).is_none());
}
