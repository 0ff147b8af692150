use rdu::EntryKind;
use rdu::Opts;
use rdu::PathEntry;
use rdu::Step;
use rdu::accumulate;
use rdu::plan_step;
use rdu::render_summary;

#[test]
fn files_are_counted() {
    assert_eq!(plan_step(&EntryKind::File { len: 512 }), Step::AddBytes(512));
}

#[test]
fn directories_are_entered() {
    assert_eq!(plan_step(&EntryKind::Directory), Step::Descend);
}

#[test]
fn symlinks_and_other_kinds_are_ignored() {
    assert_eq!(plan_step(&EntryKind::Symlink), Step::Ignore);
    assert_eq!(plan_step(&EntryKind::Other), Step::Ignore);
}

#[test]
fn accumulate_adds_file_lengths() {
    assert_eq!(accumulate(0, 0), Some(0));
    assert_eq!(accumulate(100, 50), Some(150));
    assert_eq!(accumulate(u64::MAX - 1, 1), Some(u64::MAX));
}

#[test]
fn accumulate_reports_overflow() {
    assert_eq!(accumulate(u64::MAX, 1), None);
    assert_eq!(accumulate(u64::MAX - 1, 2), None);
}

#[test]
fn path_entry_carries_path_and_kind() {
    let e = PathEntry {
        path: String::from("/var/log"),
        kind: EntryKind::File { len: 42 },
    };
    assert_eq!(e.path, "/var/log");
    assert_eq!(e.kind, EntryKind::File { len: 42 });
}

#[test]
fn summary_line_renders_size_tab_path() {
    // The byte count is really rendered, not echoed: 150 bytes come
    // out as "150 B", tab-separated from the root path.
    assert_eq!(render_summary(150, "/t"), "150 B\t/t");
    assert_eq!(render_summary(0, "/var/log"), "0 B\t/var/log");
}

#[test]
fn summary_line_scales_large_sizes() {
    let line = render_summary(4_200_000, "/var/log");
    assert!(line.ends_with("\t/var/log"));
    assert!(line.contains("MB"));
    assert!(!line.contains("4200000"));
}

#[test]
fn opts_carry_the_front_end_choices() {
    let opts = Opts {
        dir: Some(String::from(".")),
        human_readable: true,
        summarize: false,
    };
    assert_eq!(opts.dir.as_deref(), Some("."));
    assert!(opts.human_readable);
    assert!(!opts.summarize);
}
