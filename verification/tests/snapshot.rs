use defmt_core::snapshot::{
    all_snapshot_tests, compare_output, contains, disagreements, features_for, runner_args,
    snapshot_tests, ChangeKind, LineChange, Snapshot,
};

fn change(kind: ChangeKind, text: &str) -> LineChange {
    LineChange {
        kind,
        text: text.to_string(),
    }
}

#[test]
fn snapshot_name_is_the_name_given() {
    let snapshot = Snapshot::from_str("log").unwrap();
    assert_eq!(snapshot.name(), "log");
    for name in all_snapshot_tests() {
        assert_eq!(Snapshot::from_str(name).unwrap().name(), name);
    }
}

#[test]
fn unknown_snapshot_is_refused_with_the_list() {
    let message = Snapshot::from_str("nope").unwrap_err();
    assert_eq!(
        message,
        format!(
            "Specified test '{}' does not exist, available tests are: {:?}",
            "nope",
            all_snapshot_tests()
        )
    );
    assert_eq!(
        Snapshot::from_str("").unwrap_err(),
        "Specified test '' does not exist, available tests are: [\"log\", \"bitflags\", \"timestamp\", \"panic\", \"assert\", \"assert-eq\", \"assert-ne\", \"unwrap\", \"defmt-test\", \"hints\", \"hints_inner\", \"dbg\"]"
    );
    assert!(Snapshot::from_str("alloc").is_err());
    assert!(Snapshot::from_str("Log").is_err());
}

#[test]
fn snapshot_tests_in_their_order() {
    assert_eq!(
        all_snapshot_tests(),
        vec![
            "log",
            "bitflags",
            "timestamp",
            "panic",
            "assert",
            "assert-eq",
            "assert-ne",
            "unwrap",
            "defmt-test",
            "hints",
            "hints_inner",
            "dbg"
        ]
    );
    assert_eq!(snapshot_tests(false), all_snapshot_tests());
    let mut with_alloc = all_snapshot_tests();
    with_alloc.push("alloc");
    assert_eq!(snapshot_tests(true), with_alloc);
}

#[test]
fn only_the_alloc_test_has_features() {
    assert_eq!(features_for("alloc"), "alloc");
    assert_eq!(features_for("log"), "");
    assert_eq!(features_for(""), "");
}

#[test]
fn substring_search() {
    assert!(contains("defmt-test", "test"));
    assert!(contains("test", "test"));
    assert!(contains("attestation", "test"));
    assert!(!contains("tes", "test"));
    assert!(!contains("tset", "test"));
    assert!(!contains("", "test"));
    assert!(contains("", ""));
    assert!(contains("abc", ""));
    assert!(contains("tetest", "test"));
}

#[test]
fn runner_is_called_as_test_or_as_binary() {
    assert_eq!(runner_args("log", ""), vec!["-q", "rb", "log"]);
    assert_eq!(runner_args("defmt-test", ""), vec!["-q", "tt", "defmt-test"]);
    assert_eq!(
        runner_args("alloc", "alloc"),
        vec!["-q", "rb", "alloc", "--features", "alloc"]
    );
}

#[test]
fn equal_outputs_do_not_disagree() {
    assert_eq!(compare_output("", ""), Some(vec![]));
    assert_eq!(compare_output("a\nb\n", "a\nb\n"), Some(vec![]));
    assert_eq!(compare_output("no line end", "no line end"), Some(vec![]));
}

#[test]
fn missing_and_unexpected_lines_are_handed_out_in_order() {
    assert_eq!(
        compare_output("a\nb\nc", "a\nb\nC"),
        Some(vec![
            change(ChangeKind::Delete, "c\n"),
            change(ChangeKind::Insert, "C\n")
        ])
    );
    assert_eq!(
        compare_output("a\nb\n", "a\n"),
        Some(vec![change(ChangeKind::Delete, "b\n")])
    );
    assert_eq!(
        compare_output("a\n", "x\na\ny\n"),
        Some(vec![
            change(ChangeKind::Insert, "x\n"),
            change(ChangeKind::Insert, "y\n")
        ])
    );
    assert_eq!(
        compare_output("", "only\n"),
        Some(vec![change(ChangeKind::Insert, "only\n")])
    );
}

#[test]
fn agreements_are_left_out() {
    let changes = vec![
        change(ChangeKind::Equal, "a\n"),
        change(ChangeKind::Delete, "b\n"),
        change(ChangeKind::Equal, "c\n"),
        change(ChangeKind::Insert, "d\n"),
        change(ChangeKind::Insert, "e\n"),
    ];
    assert_eq!(
        disagreements(&changes),
        vec![
            change(ChangeKind::Delete, "b\n"),
            change(ChangeKind::Insert, "d\n"),
            change(ChangeKind::Insert, "e\n")
        ]
    );
    assert_eq!(disagreements(&vec![]), vec![]);
    assert_eq!(disagreements(&vec![change(ChangeKind::Equal, "a")]), vec![]);
}

#[test]
fn long_outputs_take_the_numbered_path() {
    let expected: String = (0..300).map(|i| format!("line {i}\n")).collect();
    let actual: String = (0..300)
        .map(|i| {
            if i == 150 {
                "LINE 150\n".to_string()
            } else {
                format!("line {i}\n")
            }
        })
        .collect();
    assert_eq!(
        compare_output(&expected, &actual),
        Some(vec![
            change(ChangeKind::Delete, "line 150\n"),
            change(ChangeKind::Insert, "LINE 150\n")
        ])
    );
}
