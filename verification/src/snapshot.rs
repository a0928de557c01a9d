//! The snapshot tests of the firmware examples: their names, and how the
//! runner of each is to be called.

use crate::text::same_text;
use vstd::prelude::*;
use vstd::string::*;

verus! {

/// The names of the snapshot tests, in the order in which they run.
pub open spec fn snapshot_names() -> Seq<Seq<char>> {
    seq![
        "log"@,
        "bitflags"@,
        "timestamp"@,
        "panic"@,
        "assert"@,
        "assert-eq"@,
        "assert-ne"@,
        "unwrap"@,
        "defmt-test"@,
        "hints"@,
        "hints_inner"@,
        "dbg"@,
    ]
}

/// The names of the snapshot tests, in the order in which they run.
pub fn all_snapshot_tests() -> (names: Vec<&'static str>)
    ensures
        names.deep_view() == snapshot_names(),
{
    let names = vec![
        "log",
        "bitflags",
        "timestamp",
        "panic",
        "assert",
        "assert-eq",
        "assert-ne",
        "unwrap",
        "defmt-test",
        "hints",
        "hints_inner",
        "dbg",
    ];
    assert(names.deep_view() =~= snapshot_names());
    names
}

/// What is said of a name that is no snapshot test.
pub open spec fn unknown_test_message(test: Seq<char>) -> Seq<char> {
    "Specified test '"@ + test + "' does not exist, available tests are: "@
        + "[\"log\", \"bitflags\", \"timestamp\", \"panic\", \"assert\", \"assert-eq\", \"assert-ne\", \"unwrap\", \"defmt-test\", \"hints\", \"hints_inner\", \"dbg\"]"@
}

/// One of the snapshot tests.
#[derive(Clone, Debug)]
pub struct Snapshot(String);

impl View for Snapshot {
    type V = Seq<char>;

    closed spec fn view(&self) -> Seq<char> {
        self.0@
    }
}

impl Snapshot {
    /// The name of the test.
    pub fn name(&self) -> (name: &str)
        ensures
            name@ == self@,
    {
        self.0.as_str()
    }

    /// The snapshot test called `test`, if there is one.
    pub fn from_str(test: &str) -> (r: Result<Snapshot, String>)
        ensures
            match r {
                Ok(snapshot) => snapshot_names().contains(test@) && snapshot@ == test@,
                Err(message) => !snapshot_names().contains(test@) && message@
                    == unknown_test_message(test@),
            },
    {
        let names = all_snapshot_tests();
        let mut i: usize = 0;
        while i < names.len()
            invariant
                0 <= i <= names.len(),
                names.deep_view() == snapshot_names(),
                forall|j: int| 0 <= j < i ==> snapshot_names()[j] != test@,
            decreases names.len() - i,
        {
            assert(names.deep_view()[i as int] == names[i as int]@);
            if same_text(names[i], test) {
                return Ok(Snapshot(String::from_str(test)));
            }
            i += 1;
        }
        let mut message = String::from_str("Specified test '");
        message.append(test);
        message.append("' does not exist, available tests are: ");
        message.append(
            "[\"log\", \"bitflags\", \"timestamp\", \"panic\", \"assert\", \"assert-eq\", \"assert-ne\", \"unwrap\", \"defmt-test\", \"hints\", \"hints_inner\", \"dbg\"]",
        );
        Err(message)
    }
}

/// The snapshot tests of one run: all of them, and `alloc` behind them where
/// the compiler is a nightly one.
pub fn snapshot_tests(nightly: bool) -> (tests: Vec<&'static str>)
    ensures
        tests.deep_view() == if nightly {
            snapshot_names().push("alloc"@)
        } else {
            snapshot_names()
        },
{
    let mut tests = all_snapshot_tests();
    if nightly {
        let ghost before = tests.deep_view();
        tests.push("alloc");
        assert(tests.deep_view() =~= before.push("alloc"@));
    }
    tests
}

/// The features that the test called `test` is built with: `alloc` for the
/// test of that name, none for the others.
pub fn features_for(test: &str) -> (features: &'static str)
    ensures
        features@ == if test@ == "alloc"@ {
            "alloc"@
        } else {
            Seq::<char>::empty()
        },
{
    if same_text(test, "alloc") {
        "alloc"
    } else {
        proof {
            reveal_strlit("");
        }
        ""
    }
}

/// Whether `needle` occurs in `haystack`.
pub open spec fn occurs_in(needle: Seq<char>, haystack: Seq<char>) -> bool {
    exists|i: int| occurs_at(needle, haystack, i)
}

/// Whether `needle` stands in `haystack` from index `i` on.
pub open spec fn occurs_at(needle: Seq<char>, haystack: Seq<char>, i: int) -> bool {
    0 <= i && i + needle.len() <= haystack.len() && haystack.subrange(i, i + needle.len())
        == needle
}

/// Whether `needle` occurs in `haystack`.
pub fn contains(haystack: &str, needle: &str) -> (r: bool)
    ensures
        r == occurs_in(needle@, haystack@),
{
    let n = haystack.unicode_len();
    let m = needle.unicode_len();
    if m > n {
        return false;
    }
    let mut i: usize = 0;
    while i <= n - m
        invariant
            0 <= i <= n - m + 1,
            m <= n,
            n == haystack@.len(),
            m == needle@.len(),
            forall|k: int| 0 <= k < i ==> !occurs_at(needle@, haystack@, k),
        decreases n - m + 1 - i,
    {
        let mut j: usize = 0;
        while j < m && haystack.get_char(i + j) == needle.get_char(j)
            invariant
                0 <= j <= m,
                i + m <= n,
                n == haystack@.len(),
                m == needle@.len(),
                forall|k: int| 0 <= k < j ==> haystack@[i + k] == needle@[k],
            decreases m - j,
        {
            j += 1;
        }
        if j == m {
            assert(haystack@.subrange(i as int, i + m) =~= needle@);
            assert(occurs_at(needle@, haystack@, i as int));
            return true;
        }
        assert(!occurs_at(needle@, haystack@, i as int)) by {
            if occurs_at(needle@, haystack@, i as int) {
                assert(haystack@.subrange(i as int, i + m)[j as int] == haystack@[i + j]);
            }
        }
        i += 1;
    }
    false
}

/// The arguments with which the runner of the snapshot test `name` is
/// called: quietly, as a test where the name holds `test` and as a binary
/// otherwise, and with `features` where there are any.
pub open spec fn runner_arguments(name: Seq<char>, features: Seq<char>) -> Seq<Seq<char>> {
    let kind = if occurs_in("test"@, name) {
        "tt"@
    } else {
        "rb"@
    };
    let base = seq!["-q"@, kind, name];
    if features.len() == 0 {
        base
    } else {
        base + seq!["--features"@, features]
    }
}

/// The arguments with which the runner of the snapshot test `name` is called.
pub fn runner_args(name: &str, features: &str) -> (args: Vec<String>)
    ensures
        args.deep_view() == runner_arguments(name@, features@),
{
    let kind = if contains(name, "test") {
        "tt"
    } else {
        "rb"
    };
    let mut args: Vec<String> = Vec::new();
    args.push(String::from_str("-q"));
    args.push(String::from_str(kind));
    args.push(String::from_str(name));
    assert(args.deep_view() =~= seq!["-q"@, kind@, name@]);
    if features.unicode_len() != 0 {
        let ghost base = args.deep_view();
        args.push(String::from_str("--features"));
        args.push(String::from_str(features));
        assert(args.deep_view() =~= base + seq!["--features"@, features@]);
    }
    args
}

/// What became of a line between the expected output and the actual one.
#[derive(Clone, Copy, Debug, PartialEq, Eq, Structural)]
pub enum ChangeKind {
    /// The line stands in both.
    Equal,
    /// The line was expected and is missing.
    Delete,
    /// The line was not expected.
    Insert,
}

/// One line of a comparison of two outputs.
#[derive(Clone, Debug, PartialEq, Eq)]
pub struct LineChange {
    pub kind: ChangeKind,
    /// The line, with a line end also where the output had none.
    pub text: String,
}

/// A [`LineChange`] with its line as a character sequence.
pub struct LineChangeView {
    pub kind: ChangeKind,
    pub text: Seq<char>,
}

impl View for LineChange {
    type V = LineChangeView;

    open spec fn view(&self) -> LineChangeView {
        LineChangeView { kind: self.kind, text: self.text@ }
    }
}

impl DeepView for LineChange {
    type V = LineChangeView;

    open spec fn deep_view(&self) -> LineChangeView {
        self@
    }
}

/// How many bytes two outputs may have together to be compared.
pub const MAX_COMPARED_BYTES: usize = 0x7fff_0000;

/// The line-by-line comparison of `expected` with `actual` that
/// `similar::TextDiff::from_lines` makes, as the changes that its operations
/// expand to, in their order.
pub uninterp spec fn line_diff(expected: Seq<char>, actual: Seq<char>) -> Seq<LineChangeView>;

/// Compares two outputs line by line with `similar::TextDiff::from_lines`
/// and hands out, for each operation of the comparison (`TextDiff::ops`), the
/// changes that it expands to (`TextDiff::iter_changes`), each with its tag
/// and its text as displayed.
///
/// Trusted: of the result nothing is claimed but that it is settled by the
/// two texts; `line_diff` is its name. The comparison runs with the
/// defaults of the crate, which set no deadline. It numbers the distinct
/// lines of long texts with 32 bits, so texts with more lines than that are
/// kept away from it.
#[verifier::external_body]
fn diff_lines(expected: &str, actual: &str) -> (changes: Vec<LineChange>)
    requires
        expected.spec_bytes().len() + actual.spec_bytes().len() <= MAX_COMPARED_BYTES,
    ensures
        changes.deep_view() == line_diff(expected@, actual@),
{
    let diff = similar::TextDiff::from_lines(expected, actual);
    let mut changes = Vec::new();
    for op in diff.ops() {
        for change in diff.iter_changes(op) {
            let kind = match change.tag() {
                similar::ChangeTag::Equal => ChangeKind::Equal,
                similar::ChangeTag::Delete => ChangeKind::Delete,
                similar::ChangeTag::Insert => ChangeKind::Insert,
            };
            changes.push(LineChange { kind, text: change.to_string() });
        }
    }
    changes
}

/// Whether a change is a disagreement of the two outputs.
pub open spec fn disagrees() -> spec_fn(LineChangeView) -> bool {
    |change: LineChangeView| change.kind != ChangeKind::Equal
}

/// The changes among `changes` in which the two outputs disagree, in their
/// order. The outputs agree where there is none.
pub fn disagreements(changes: &Vec<LineChange>) -> (found: Vec<LineChange>)
    ensures
        found.deep_view() == changes.deep_view().filter(disagrees()),
{
    let mut found: Vec<LineChange> = Vec::new();
    let mut i: usize = 0;
    assert(changes.deep_view().take(0) =~= Seq::<LineChangeView>::empty());
    assert(found.deep_view() =~= changes.deep_view().take(0).filter(disagrees())) by {
        reveal(Seq::filter);
    }
    while i < changes.len()
        invariant
            0 <= i <= changes.len(),
            found.deep_view() == changes.deep_view().take(i as int).filter(disagrees()),
        decreases changes.len() - i,
    {
        let ghost before = found.deep_view();
        let ghost seen = changes.deep_view().take(i as int);
        proof {
            assert(changes.deep_view().take(i + 1) =~= seen.push(changes[i as int]@));
            seen.lemma_filter_push(changes[i as int]@, disagrees());
        }
        match changes[i].kind {
            ChangeKind::Equal => {},
            kind => {
                let text = changes[i].text.clone();
                found.push(LineChange { kind, text });
                assert(found.deep_view() =~= before.push(changes[i as int]@));
            },
        }
        i += 1;
    }
    assert(changes.deep_view().take(i as int) =~= changes.deep_view());
    found
}

/// Compares what a snapshot test logged with what it is expected to log,
/// line by line: the lines that are missing and the lines that are not
/// expected, in the order of the comparison. The test passes where there is
/// none.
///
/// Outputs of more than [`MAX_COMPARED_BYTES`] bytes together are not
/// compared: the answer is `None`.
pub fn compare_output(expected: &str, actual: &str) -> (found: Option<Vec<LineChange>>)
    ensures
        match found {
            Some(found) => {
                &&& expected.spec_bytes().len() + actual.spec_bytes().len() <= MAX_COMPARED_BYTES
                &&& found.deep_view() == line_diff(expected@, actual@).filter(disagrees())
            },
            None => expected.spec_bytes().len() + actual.spec_bytes().len() > MAX_COMPARED_BYTES,
        },
{
    let expected_bytes = expected.as_bytes();
    let actual_bytes = actual.as_bytes();
    let n = expected_bytes.len();
    let m = actual_bytes.len();
    proof {
        vstd::slice::axiom_spec_len(expected_bytes);
        vstd::slice::axiom_spec_len(actual_bytes);
    }
    if n > MAX_COMPARED_BYTES || m > MAX_COMPARED_BYTES - n {
        return None;
    }
    let changes = diff_lines(expected, actual);
    Some(disagreements(&changes))
}

} // verus!
