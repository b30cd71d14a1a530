use society::consensus;
use society::ProposalVote;

#[test]
fn consensus_cases() {
    assert!(consensus(1, 1));
    assert_eq!(!consensus(2, 1), consensus(2, 2));
    assert_eq!(!consensus(3, 1), consensus(3, 2));
    assert_eq!(!consensus(4, 2), consensus(4, 3));
    assert_eq!(!consensus(5, 2), consensus(5, 3));
    assert_eq!(!consensus(6, 3), consensus(6, 4));
    assert_eq!(!consensus(7, 3), consensus(7, 4));
    assert_eq!(!consensus(8, 4), consensus(8, 5));
    assert_eq!(!consensus(9, 4), consensus(9, 5));
    assert_eq!(!consensus(10, 5), consensus(10, 6));
    assert_eq!(!consensus(11, 5), consensus(11, 6));
    assert_eq!(!consensus(12, 6), consensus(12, 7));
    assert_eq!(!consensus(13, 6), consensus(13, 7));
}

#[test]
fn consensus_target_table() {
    let table: [(u64, u64); 13] = [
        (1, 1),
        (2, 2),
        (3, 2),
        (4, 3),
        (5, 3),
        (6, 4),
        (7, 4),
        (8, 5),
        (9, 5),
        (10, 6),
        (11, 6),
        (12, 7),
        (13, 7),
    ];
    for (n, target) in table {
        assert!(consensus(n, target));
        assert!(!consensus(n, target - 1));
        assert!(consensus(n, target + 1));
    }
}

#[test]
fn consensus_at_extremes() {
    assert!(consensus(0, 1));
    assert!(!consensus(0, 0));
    assert!(consensus(u64::MAX, u64::MAX / 2 + 1));
    assert!(!consensus(u64::MAX, u64::MAX / 2));
}

#[test]
fn vote_tally_predicates() {
    let more = ProposalVote { approve: 3, reject: 1 };
    assert!(more.is_approve() && !more.is_parte() && !more.is_reject());
    let tie = ProposalVote { approve: 2, reject: 2 };
    assert!(!tie.is_approve() && tie.is_parte() && !tie.is_reject());
    let fewer = ProposalVote { approve: 0, reject: 1 };
    assert!(!fewer.is_approve() && !fewer.is_parte() && fewer.is_reject());
}
