use rdu::ErrKind;
use rdu::FsTree;
use rdu::Strategy;
use rdu::calc_space_usage;
use rdu::calc_space_usage_event_queue;
use rdu::calc_space_usage_fanout;
use rdu::calc_space_usage_sequential;

fn all_strategies(t: &FsTree) -> [Result<u64, ErrKind>; 3] {
    [
        calc_space_usage_sequential(t),
        calc_space_usage_fanout(t),
        calc_space_usage_event_queue(t),
    ]
}

/// Frees a tree without recursive drop glue, so that very deep trees
/// cannot overflow the stack on the way out.
fn dismantle(t: FsTree) {
    let mut stack = vec![t];
    while let Some(n) = stack.pop() {
        if let FsTree::Dir { mut entries } = n {
            while let Some(c) = entries.pop() {
                stack.push(c);
            }
        }
    }
}

#[test]
fn empty_directory_totals_zero() {
    let t = FsTree::Dir { entries: vec![] };
    for r in all_strategies(&t) {
        assert_eq!(r, Ok(0));
    }
}

#[test]
fn single_empty_file_totals_zero() {
    let t = FsTree::File { size: 0 };
    for r in all_strategies(&t) {
        assert_eq!(r, Ok(0));
    }
}

#[test]
fn single_file_reports_its_length() {
    let t = FsTree::File { size: 123 };
    for r in all_strategies(&t) {
        assert_eq!(r, Ok(123));
    }
}

#[test]
fn directory_with_one_file_totals_that_file() {
    let t = FsTree::Dir {
        entries: vec![FsTree::File { size: 4096 }],
    };
    for r in all_strategies(&t) {
        assert_eq!(r, Ok(4096));
    }
}

#[test]
fn concrete_scenario_totals_one_hundred_fifty() {
    // root /t: file a (100 bytes), directory b holding file c (50
    // bytes) and a symlink d, and an empty directory e.
    let t = FsTree::Dir {
        entries: vec![
            FsTree::File { size: 100 },
            FsTree::Dir {
                entries: vec![FsTree::File { size: 50 }, FsTree::Symlink],
            },
            FsTree::Dir { entries: vec![] },
        ],
    };
    for r in all_strategies(&t) {
        assert_eq!(r, Ok(150));
    }
    assert_eq!(calc_space_usage(&t, Strategy::Sequential), Ok(150));
    assert_eq!(calc_space_usage(&t, Strategy::FanOut), Ok(150));
    assert_eq!(calc_space_usage(&t, Strategy::EventQueue), Ok(150));
}

#[test]
fn symlink_root_contributes_nothing() {
    for r in all_strategies(&FsTree::Symlink) {
        assert_eq!(r, Ok(0));
    }
}

#[test]
fn symlinks_contribute_nothing_and_are_not_followed() {
    // The same directory with and without symlinks among its children:
    // the totals agree, whatever the links would point at.
    let without = FsTree::Dir {
        entries: vec![FsTree::File { size: 7 }, FsTree::File { size: 5 }],
    };
    let with = FsTree::Dir {
        entries: vec![
            FsTree::Symlink,
            FsTree::File { size: 7 },
            FsTree::Symlink,
            FsTree::File { size: 5 },
            FsTree::Symlink,
        ],
    };
    for (a, b) in all_strategies(&without).into_iter().zip(all_strategies(&with)) {
        assert_eq!(a, Ok(12));
        assert_eq!(b, Ok(12));
    }
}

#[test]
fn other_node_kinds_contribute_nothing() {
    let t = FsTree::Dir {
        entries: vec![FsTree::Other, FsTree::File { size: 9 }],
    };
    for r in all_strategies(&t) {
        assert_eq!(r, Ok(9));
    }
}

#[test]
fn enumeration_order_does_not_change_the_total() {
    let forward = FsTree::Dir {
        entries: vec![
            FsTree::File { size: 1 },
            FsTree::Dir {
                entries: vec![FsTree::File { size: 2 }, FsTree::File { size: 3 }],
            },
            FsTree::Symlink,
            FsTree::File { size: 4 },
        ],
    };
    let backward = FsTree::Dir {
        entries: vec![
            FsTree::File { size: 4 },
            FsTree::Symlink,
            FsTree::Dir {
                entries: vec![FsTree::File { size: 3 }, FsTree::File { size: 2 }],
            },
            FsTree::File { size: 1 },
        ],
    };
    for (a, b) in all_strategies(&forward).into_iter().zip(all_strategies(&backward)) {
        assert_eq!(a, Ok(10));
        assert_eq!(b, Ok(10));
    }
}

#[test]
fn strategies_agree_on_a_mixed_tree() {
    let t = FsTree::Dir {
        entries: vec![
            FsTree::Dir {
                entries: vec![
                    FsTree::File { size: 11 },
                    FsTree::Dir {
                        entries: vec![FsTree::File { size: 22 }],
                    },
                ],
            },
            FsTree::File { size: 33 },
            FsTree::Other,
            FsTree::Symlink,
            FsTree::Dir { entries: vec![] },
        ],
    };
    let [r1, r2, r3] = all_strategies(&t);
    assert_eq!(r1, Ok(66));
    assert_eq!(r1, r2);
    assert_eq!(r2, r3);
}

#[test]
fn deep_narrow_tree_completes_without_stack_overflow() {
    // 10,000 nested single-child directories with one file of size 77
    // at the bottom: every strategy returns 77 and none recurses on
    // the call stack.
    let mut t = FsTree::File { size: 77 };
    for _ in 0..10_000 {
        t = FsTree::Dir { entries: vec![t] };
    }
    for r in all_strategies(&t) {
        assert_eq!(r, Ok(77));
    }
    dismantle(t);
}

#[test]
fn unreadable_node_fails_every_strategy() {
    for kind in [ErrKind::NotFound, ErrKind::PermissionDenied, ErrKind::Other] {
        let t = FsTree::Dir {
            entries: vec![
                FsTree::File { size: 100 },
                FsTree::Dir {
                    entries: vec![FsTree::Unreadable { err: kind }],
                },
            ],
        };
        for r in all_strategies(&t) {
            assert_eq!(r, Err(kind));
        }
    }
}

#[test]
fn unlistable_directory_fails_every_strategy() {
    let t = FsTree::Dir {
        entries: vec![
            FsTree::Unlistable {
                err: ErrKind::PermissionDenied,
            },
            FsTree::File { size: 1 },
        ],
    };
    for r in all_strategies(&t) {
        assert_eq!(r, Err(ErrKind::PermissionDenied));
    }
}

#[test]
fn failing_root_fails_every_strategy() {
    let t = FsTree::Unreadable {
        err: ErrKind::NotFound,
    };
    for r in all_strategies(&t) {
        assert_eq!(r, Err(ErrKind::NotFound));
    }
    let u = FsTree::Unlistable { err: ErrKind::Other };
    for r in all_strategies(&u) {
        assert_eq!(r, Err(ErrKind::Other));
    }
}

#[test]
fn no_partial_total_on_failure() {
    // A failure anywhere yields an error, never an undercounted total.
    let t = FsTree::Dir {
        entries: vec![
            FsTree::File { size: 5 },
            FsTree::Unreadable {
                err: ErrKind::PermissionDenied,
            },
            FsTree::File { size: 6 },
        ],
    };
    for r in all_strategies(&t) {
        assert!(r.is_err());
    }
}
