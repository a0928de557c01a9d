//! The directive table of one calling package, and what it admits.
//!
//! A table maps namespace paths to minimum severities. It is built once, from
//! a filter string and the name of the calling package, and is then
//! only read: for a severity it gives the paths that may emit at that
//! severity, and the predicate that decides, for the path of a call site,
//! whether the site is admitted.

use crate::directive::{read_directive, Directive, FilterError, FilterErrorView, SpecDirective};
use crate::level::Level;
use crate::text::{
    lemma_lex_lt_irreflexive, lemma_lex_lt_total, lemma_lex_lt_transitive, lex_lt, same_text, split,
    split_on, starts_with, strictly_sorted, text_lt,
};
use vstd::prelude::*;
use vstd::string::*;
use vstd::utf8::encode_utf8;

verus! {

/// The level that the last directive naming `path` gives it, if any names it.
pub open spec fn explicit_level(directives: Seq<SpecDirective>, path: Seq<char>) -> Option<Level>
    decreases directives.len(),
{
    if directives.len() == 0 {
        None
    } else {
        match directives.last() {
            SpecDirective::Path { path: named, level } if named == path => Some(level),
            _ => explicit_level(directives.drop_last(), path),
        }
    }
}

/// The last bare level among `directives`, if there is one.
pub open spec fn fallback_level(directives: Seq<SpecDirective>) -> Option<Level>
    decreases directives.len(),
{
    if directives.len() == 0 {
        None
    } else {
        match directives.last() {
            SpecDirective::Fallback(level) => Some(level),
            _ => fallback_level(directives.drop_last()),
        }
    }
}

/// The threshold of the calling package where no directive names it: the
/// last bare level, or `Error` without one.
pub open spec fn default_level(directives: Seq<SpecDirective>) -> Level {
    match fallback_level(directives) {
        Some(level) => level,
        None => Level::Error,
    }
}

/// The table that `directives`, in the order in which they were written, make
/// for the package `krate`.
///
/// Its keys are `krate` and every named path that begins with the text of
/// `krate`. A named path has the level of the last directive that names it;
/// `krate`, where no directive names it, has the default level.
pub open spec fn filter_table(directives: Seq<SpecDirective>, krate: Seq<char>) -> Map<
    Seq<char>,
    Level,
> {
    Map::new(
        |path: Seq<char>|
            path == krate || (krate.is_prefix_of(path) && explicit_level(directives, path) is Some),
        |path: Seq<char>|
            match explicit_level(directives, path) {
                Some(level) => level,
                None => default_level(directives),
            },
    )
}

/// The texts of the directives of a filter string: none where the string is
/// absent, else its pieces between commas.
pub open spec fn directive_items(input: Option<Seq<char>>) -> Seq<Seq<char>> {
    match input {
        Some(text) => split_on(text, ','),
        None => Seq::empty(),
    }
}

/// The error of the rightmost of `items` that denotes no directive, if there
/// is such an item.
pub open spec fn first_failure(items: Seq<Seq<char>>) -> Option<FilterErrorView>
    decreases items.len(),
{
    if items.len() == 0 {
        None
    } else {
        match read_directive(items.last()) {
            Err(error) => Some(error),
            Ok(_) => first_failure(items.drop_last()),
        }
    }
}

/// The directives that `items` denote, in the same order.
pub open spec fn directives_of(items: Seq<Seq<char>>) -> Seq<SpecDirective> {
    Seq::new(items.len(), |i: int| read_directive(items[i])->Ok_0)
}

/// What a filter string comes to for the package `krate`: its table,
/// or the error of its rightmost malformed directive.
pub open spec fn filter_outcome(input: Option<Seq<char>>, krate: Seq<char>) -> Result<
    Map<Seq<char>, Level>,
    FilterErrorView,
> {
    let items = directive_items(input);
    match first_failure(items) {
        Some(error) => Err(error),
        None => Ok(filter_table(directives_of(items), krate)),
    }
}

/// The characters of a text that may be absent.
pub open spec fn text_of(input: Option<&str>) -> Option<Seq<char>> {
    match input {
        Some(text) => Some(text@),
        None => None,
    }
}

/// Whether `table` lets `path` emit at `level`: it holds `path`, with a
/// threshold that `level` reaches.
pub open spec fn allowed(table: Map<Seq<char>, Level>, level: Level, path: Seq<char>) -> bool {
    table.contains_key(path) && table[path].rank() <= level.rank()
}

/// Whether `paths` lists, in strictly increasing order, exactly the paths
/// that `table` lets emit at `level`.
pub open spec fn lists_allowed(
    paths: Seq<Seq<char>>,
    table: Map<Seq<char>, Level>,
    level: Level,
) -> bool {
    &&& strictly_sorted(paths)
    &&& forall|path: Seq<char>| #[trigger] paths.contains(path) <==> allowed(table, level, path)
}

/// First byte of the separator `::`.
pub const SEPARATOR_START: u8 = 0x3a;

/// Whether `haystack` begins with `needle` and `needle` ends there at the
/// end of a path segment: `haystack` ends with it too, or goes on with the
/// first byte of a separator. What follows that byte is not looked at.
pub open spec fn segment_prefix(needle: Seq<u8>, haystack: Seq<u8>) -> bool {
    &&& needle.is_prefix_of(haystack)
    &&& (needle.len() == haystack.len() || haystack[needle.len() as int] == SEPARATOR_START)
}

/// Whether one of `needles`, as UTF-8, is a segment prefix of `haystack`.
pub open spec fn admits(needles: Seq<Seq<char>>, haystack: Seq<u8>) -> bool {
    exists|i: int|
        0 <= i < needles.len() && segment_prefix(encode_utf8(#[trigger] needles[i]), haystack)
}

/// One row of the table.
#[derive(Debug)]
struct Entry {
    path: String,
    level: Level,
}

/// The paths of the rows, in their order.
spec fn paths_of(entries: Seq<Entry>) -> Seq<Seq<char>> {
    Seq::new(entries.len(), |i: int| entries[i].path@)
}

/// Whether row `i` is the row of `path`.
spec fn holds(entries: Seq<Entry>, path: Seq<char>, i: int) -> bool {
    0 <= i < entries.len() && entries[i].path@ == path
}

/// Whether row `k` is the row of `path` and lets it emit at `level`.
spec fn passes(entries: Seq<Entry>, level: Level, path: Seq<char>, k: int) -> bool {
    holds(entries, path, k) && entries[k].level.rank() <= level.rank()
}

/// Whether a row before `end` lets `path` emit at `level`.
spec fn passes_before(entries: Seq<Entry>, level: Level, path: Seq<char>, end: int) -> bool {
    exists|k: int| 0 <= k < end && passes(entries, level, path, k)
}

/// The table that the rows make.
spec fn table_of(entries: Seq<Entry>) -> Map<Seq<char>, Level> {
    Map::new(
        |path: Seq<char>| exists|i: int| holds(entries, path, i),
        |path: Seq<char>| entries[choose|i: int| holds(entries, path, i)].level,
    )
}

/// In ordered rows every path has one row, and the table has its level.
proof fn lemma_table_of(entries: Seq<Entry>)
    requires
        strictly_sorted(paths_of(entries)),
    ensures
        forall|i: int|
            0 <= i < entries.len() ==> table_of(entries).contains_key(#[trigger] entries[i].path@)
                && table_of(entries)[entries[i].path@] == entries[i].level,
        forall|path: Seq<char>| #[trigger]
            table_of(entries).contains_key(path) ==> exists|i: int| holds(entries, path, i),
{
    let paths = paths_of(entries);
    assert forall|i: int| 0 <= i < entries.len() implies table_of(entries).contains_key(
        #[trigger] entries[i].path@,
    ) && table_of(entries)[entries[i].path@] == entries[i].level by {
        let path = entries[i].path@;
        assert(holds(entries, path, i));
        let j = choose|j: int| holds(entries, path, j);
        if i != j {
            lemma_lex_lt_irreflexive(path);
            assert(paths[i] == path && paths[j] == path);
            if i < j {
                assert(lex_lt(paths[i], paths[j]));
            } else {
                assert(lex_lt(paths[j], paths[i]));
            }
        }
    }
}

/// Inserting an entry at the place that the order gives it adds its path to
/// the table and keeps the order.
proof fn lemma_insert(entries: Seq<Entry>, at: int, entry: Entry)
    requires
        strictly_sorted(paths_of(entries)),
        0 <= at <= entries.len(),
        forall|j: int| 0 <= j < at ==> lex_lt(#[trigger] entries[j].path@, entry.path@),
        at < entries.len() ==> lex_lt(entry.path@, entries[at].path@),
    ensures
        strictly_sorted(paths_of(entries.insert(at, entry))),
        !table_of(entries).contains_key(entry.path@),
        table_of(entries.insert(at, entry)) == table_of(entries).insert(entry.path@, entry.level),
{
    let after = entries.insert(at, entry);
    let paths = paths_of(entries);
    let new_paths = paths_of(after);
    assert forall|j: int| at <= j < entries.len() implies lex_lt(
        entry.path@,
        #[trigger] entries[j].path@,
    ) by {
        if j > at {
            assert(lex_lt(paths[at], paths[j]));
            lemma_lex_lt_transitive(entry.path@, entries[at].path@, entries[j].path@);
        }
    }
    assert forall|i: int, j: int| 0 <= i < j < new_paths.len() implies lex_lt(
        #[trigger] new_paths[i],
        #[trigger] new_paths[j],
    ) by {
        let a = if i < at {
            i
        } else {
            i - 1
        };
        let b = if j < at {
            j
        } else {
            j - 1
        };
        if i == at {
            assert(new_paths[j] == entries[b].path@);
        } else if j == at {
            assert(new_paths[i] == entries[a].path@);
        } else {
            assert(new_paths[i] == paths[a] && new_paths[j] == paths[b]);
            assert(lex_lt(paths[a], paths[b]));
        }
    }
    lemma_lex_lt_irreflexive(entry.path@);
    lemma_table_of(entries);
    lemma_table_of(after);
    assert(!table_of(entries).contains_key(entry.path@)) by {
        if table_of(entries).contains_key(entry.path@) {
            let j = choose|j: int| holds(entries, entry.path@, j);
            assert(holds(entries, entry.path@, j));
            if j < at {
                assert(lex_lt(entries[j].path@, entry.path@));
            } else {
                assert(lex_lt(entry.path@, entries[j].path@));
            }
        }
    }
    let target = table_of(entries).insert(entry.path@, entry.level);
    assert forall|path: Seq<char>| table_of(after).contains_key(path) implies #[trigger]
        target.contains_key(path) && target[path] == table_of(after)[path] by {
        let j = choose|j: int| holds(after, path, j);
        assert(holds(after, path, j));
        assert(table_of(after)[after[j].path@] == after[j].level);
        if j != at {
            let b = if j < at {
                j
            } else {
                j - 1
            };
            assert(after[j] == entries[b]);
            assert(holds(entries, path, b));
            assert(table_of(entries)[entries[b].path@] == entries[b].level);
        }
    }
    assert forall|path: Seq<char>| target.contains_key(path) implies #[trigger] table_of(
        after,
    ).contains_key(path) by {
        if path == entry.path@ {
            assert(holds(after, path, at));
        } else {
            let b = choose|b: int| holds(entries, path, b);
            assert(holds(entries, path, b));
            let j = if b < at {
                b
            } else {
                b + 1
            };
            assert(after[j] == entries[b]);
            assert(holds(after, path, j));
        }
    }
    assert(table_of(after) =~= target);
}

/// What a directive put before others adds to the level of a path: nothing
/// where a later directive names the path.
proof fn lemma_explicit_level_front(first: SpecDirective, rest: Seq<SpecDirective>, path: Seq<char>)
    ensures
        explicit_level(seq![first] + rest, path) == match explicit_level(rest, path) {
            Some(level) => Some(level),
            None => match first {
                SpecDirective::Path { path: named, level } if named == path => Some(level),
                _ => None,
            },
        },
    decreases rest.len(),
{
    let all = seq![first] + rest;
    if rest.len() == 0 {
        assert(all.last() == first);
        assert(all.drop_last() =~= Seq::<SpecDirective>::empty());
        assert(explicit_level(all.drop_last(), path) is None);
        assert(explicit_level(rest, path) is None);
    } else {
        assert(all.last() == rest.last());
        assert(all.drop_last() =~= seq![first] + rest.drop_last());
        lemma_explicit_level_front(first, rest.drop_last(), path);
    }
}

/// What a directive put before others adds to the fallback: nothing where
/// a later directive is a bare level.
proof fn lemma_fallback_level_front(first: SpecDirective, rest: Seq<SpecDirective>)
    ensures
        fallback_level(seq![first] + rest) == match fallback_level(rest) {
            Some(level) => Some(level),
            None => match first {
                SpecDirective::Fallback(level) => Some(level),
                _ => None,
            },
        },
    decreases rest.len(),
{
    let all = seq![first] + rest;
    if rest.len() == 0 {
        assert(all.last() == first);
        assert(all.drop_last() =~= Seq::<SpecDirective>::empty());
        assert(fallback_level(all.drop_last()) is None);
        assert(fallback_level(rest) is None);
    } else {
        assert(all.last() == rest.last());
        assert(all.drop_last() =~= seq![first] + rest.drop_last());
        lemma_fallback_level_front(first, rest.drop_last());
    }
}

/// The named paths of `krate` with their levels: the table before the entry
/// of the package itself is seen to.
spec fn named_table(directives: Seq<SpecDirective>, krate: Seq<char>) -> Map<Seq<char>, Level> {
    Map::new(
        |path: Seq<char>| krate.is_prefix_of(path) && explicit_level(directives, path) is Some,
        |path: Seq<char>| explicit_level(directives, path)->0,
    )
}

/// Adds `path` at `level` to the sorted `entries`, unless they hold `path` already.
fn insert_if_absent(entries: &mut Vec<Entry>, path: String, level: Level)
    requires
        strictly_sorted(paths_of(old(entries)@)),
    ensures
        strictly_sorted(paths_of(final(entries)@)),
        table_of(final(entries)@) == if table_of(old(entries)@).contains_key(path@) {
            table_of(old(entries)@)
        } else {
            table_of(old(entries)@).insert(path@, level)
        },
{
    let n = entries.len();
    let mut at: usize = 0;
    while at < n && text_lt(entries[at].path.as_str(), path.as_str())
        invariant
            0 <= at <= n,
            n == entries.len(),
            *entries == *old(entries),
            forall|j: int| 0 <= j < at ==> lex_lt(#[trigger] entries[j].path@, path@),
        decreases n - at,
    {
        at += 1;
    }
    if at < n && same_text(entries[at].path.as_str(), path.as_str()) {
        proof {
            lemma_table_of(entries@);
        }
        return ;
    }
    proof {
        if at < n {
            lemma_lex_lt_total(entries[at as int].path@, path@);
        }
        lemma_insert(entries@, at as int, Entry { path, level });
    }
    entries.insert(at, Entry { path, level });
}

/// The outcome of building a table, with table and error by their views.
pub open spec fn outcome_view(r: Result<EnvFilter, FilterError>) -> Result<
    Map<Seq<char>, Level>,
    FilterErrorView,
> {
    match r {
        Ok(filter) => Ok(filter@),
        Err(error) => Err(error@),
    }
}

/// The minimum severity of every namespace path that a filter string names
/// for one calling package.
#[derive(Debug)]
pub struct EnvFilter {
    entries: Vec<Entry>,
}

impl View for EnvFilter {
    type V = Map<Seq<char>, Level>;

    closed spec fn view(&self) -> Map<Seq<char>, Level> {
        table_of(self.entries@)
    }
}

impl EnvFilter {
    /// The rows are kept in strictly increasing order of their paths.
    #[verifier::type_invariant]
    spec fn ordered(&self) -> bool {
        strictly_sorted(paths_of(self.entries@))
    }

    /// Reads a filter string for the package `cargo_crate_name`.
    ///
    /// The string is a list of directives between commas; an absent one is
    /// the empty list. It is rejected if one of its directives is
    /// malformed, with the error of the rightmost such directive.
    pub fn new(defmt_log: Option<&str>, cargo_crate_name: &str) -> (r: Result<
        EnvFilter,
        FilterError,
    >)
        ensures
            outcome_view(r) == filter_outcome(text_of(defmt_log), cargo_crate_name@),
    {
        let mut directives: Vec<Directive> = Vec::new();
        if let Some(input) = defmt_log {
            let items = split(input, ',');
            let mut i: usize = items.len();
            assert(items.deep_view().take(i as int) =~= items.deep_view());
            assert(directives.deep_view() =~= directives_of(items.deep_view()).skip(i as int));
            while i > 0
                invariant
                    0 <= i <= items.len(),
                    defmt_log == Some(input),
                    items.deep_view() == split_on(input@, ','),
                    first_failure(items.deep_view()) == first_failure(
                        items.deep_view().take(i as int),
                    ),
                    directives.deep_view() == directives_of(items.deep_view()).skip(i as int),
                decreases i,
            {
                i -= 1;
                let ghost texts = items.deep_view();
                assert(texts.take(i + 1).last() == items[i as int]@);
                assert(texts.take(i + 1).drop_last() =~= texts.take(i as int));
                match Directive::parse(items[i].as_str()) {
                    Ok(directive) => {
                        let ghost before = directives.deep_view();
                        directives.insert(0, directive);
                        assert(directives.deep_view() =~= directives_of(texts).skip(i as int)) by {
                            assert(directives.deep_view() =~= before.insert(0, directive@));
                        }
                    },
                    Err(error) => {
                        return Err(error);
                    },
                }
            }
            assert(directives_of(items.deep_view()).skip(0) =~= directives_of(items.deep_view()));
        } else {
            assert(directives.deep_view() =~= directives_of(Seq::empty()));
        }
        Ok(EnvFilter::from_directives(&directives, cargo_crate_name))
    }

    /// Builds the table of the package `cargo_crate_name` from directives in
    /// the order in which they were written: of two directives that name one
    /// path, the later wins.
    ///
    /// A path is kept where it begins with the text of the package name; the
    /// test is on text, not on path segments.
    pub fn from_directives(directives: &Vec<Directive>, cargo_crate_name: &str) -> (filter:
        EnvFilter)
        ensures
            filter@ == filter_table(directives.deep_view(), cargo_crate_name@),
    {
        let ghost all = directives.deep_view();
        let ghost krate = cargo_crate_name@;
        let mut entries: Vec<Entry> = Vec::new();
        let mut fallback: Option<Level> = None;
        let mut i: usize = directives.len();
        assert(table_of(entries@) =~= named_table(all.skip(i as int), krate));
        while i > 0
            invariant
                0 <= i <= directives.len(),
                all == directives.deep_view(),
                krate == cargo_crate_name@,
                strictly_sorted(paths_of(entries@)),
                table_of(entries@) == named_table(all.skip(i as int), krate),
                fallback == fallback_level(all.skip(i as int)),
            decreases i,
        {
            i -= 1;
            let ghost rest = all.skip(i + 1);
            let ghost first = all[i as int];
            assert(all.skip(i as int) =~= seq![first] + rest);
            assert(first == directives[i as int]@);
            proof {
                lemma_fallback_level_front(first, rest);
                assert forall|path: Seq<char>|
                    explicit_level(seq![first] + rest, path) == match #[trigger] explicit_level(
                        rest,
                        path,
                    ) {
                        Some(level) => Some(level),
                        None => match first {
                            SpecDirective::Path { path: named, level } if named == path => Some(
                                level,
                            ),
                            _ => None,
                        },
                    } by {
                    lemma_explicit_level_front(first, rest, path);
                }
            }
            match &directives[i] {
                Directive::Fallback(level) => {
                    if fallback.is_none() {
                        fallback = Some(*level);
                    }
                    assert(named_table(all.skip(i as int), krate) =~= named_table(rest, krate));
                },
                Directive::Path { path, level } => {
                    if starts_with(path.as_str(), cargo_crate_name) {
                        insert_if_absent(&mut entries, path.clone(), *level);
                        assert(table_of(entries@) =~= named_table(all.skip(i as int), krate));
                    } else {
                        assert(named_table(all.skip(i as int), krate) =~= named_table(rest, krate));
                    }
                },
            }
        }
        assert(all.skip(0) =~= all);
        let default = match fallback {
            Some(level) => level,
            None => Level::Error,
        };
        insert_if_absent(&mut entries, String::from_str(cargo_crate_name), default);
        assert(table_of(entries@) =~= filter_table(all, krate)) by {
            assert(krate.is_prefix_of(krate));
        }
        EnvFilter { entries }
    }

    /// The paths that may emit at `level`, each once, in increasing order.
    pub fn paths_for_level(&self, level: Level) -> (paths: Vec<&str>)
        ensures
            lists_allowed(paths.deep_view(), self@, level),
    {
        proof {
            use_type_invariant(self);
            lemma_table_of(self.entries@);
        }
        let mut paths: Vec<&str> = Vec::new();
        let mut i: usize = 0;
        let ghost entries = self.entries@;
        while i < self.entries.len()
            invariant
                0 <= i <= self.entries.len(),
                entries == self.entries@,
                strictly_sorted(paths_of(entries)),
                strictly_sorted(paths.deep_view()),
                forall|j: int|
                    0 <= j < paths.len() ==> passes_before(
                        entries,
                        level,
                        #[trigger] paths.deep_view()[j],
                        i as int,
                    ),
                forall|k: int|
                    0 <= k < i && entries[k].level.rank() <= level.rank()
                        ==> paths.deep_view().contains(#[trigger] entries[k].path@),
            decreases self.entries.len() - i,
        {
            if level.at_least(self.entries[i].level) {
                let ghost before = paths.deep_view();
                let path = self.entries[i].path.as_str();
                paths.push(path);
                proof {
                    let now = paths.deep_view();
                    let all = paths_of(entries);
                    assert(now =~= before.push(path@));
                    assert(now.len() == paths.len());
                    assert(passes(entries, level, path@, i as int));
                    assert forall|j: int| 0 <= j < now.len() implies passes_before(
                        entries,
                        level,
                        #[trigger] now[j],
                        i + 1,
                    ) by {
                        if j < before.len() {
                            assert(passes_before(entries, level, before[j], i as int));
                            let k = choose|k: int|
                                0 <= k < i && passes(entries, level, before[j], k);
                            assert(passes(entries, level, now[j], k));
                        } else {
                            assert(passes(entries, level, now[j], i as int));
                        }
                    }
                    assert forall|a: int, b: int| 0 <= a < b < now.len() implies lex_lt(
                        #[trigger] now[a],
                        #[trigger] now[b],
                    ) by {
                        if b == now.len() - 1 {
                            assert(passes_before(entries, level, before[a], i as int));
                            let k = choose|k: int|
                                0 <= k < i && passes(entries, level, before[a], k);
                            assert(now[a] == all[k] && now[b] == all[i as int]);
                        } else {
                            assert(now[a] == before[a] && now[b] == before[b]);
                        }
                    }
                    assert forall|k: int|
                        0 <= k < i + 1 && entries[k].level.rank()
                            <= level.rank() implies now.contains(#[trigger] entries[k].path@) by {
                        if k < i {
                            let j = choose|j: int|
                                0 <= j < before.len() && before[j] == entries[k].path@;
                            assert(now[j] == before[j]);
                        } else {
                            assert(now[now.len() - 1] == entries[k].path@);
                        }
                    }
                }
            } else {
                proof {
                    let now = paths.deep_view();
                    assert forall|j: int| 0 <= j < now.len() implies passes_before(
                        entries,
                        level,
                        #[trigger] now[j],
                        i + 1,
                    ) by {
                        assert(passes_before(entries, level, now[j], i as int));
                        let k = choose|k: int| 0 <= k < i && passes(entries, level, now[j], k);
                        assert(passes(entries, level, now[j], k));
                    }
                }
            }
            i += 1;
        }
        proof {
            let listed = paths.deep_view();
            assert forall|path: Seq<char>| #[trigger] listed.contains(path) <==> allowed(
                self@,
                level,
                path,
            ) by {
                if listed.contains(path) {
                    let j = choose|j: int| 0 <= j < listed.len() && listed[j] == path;
                    assert(passes_before(entries, level, listed[j], i as int));
                    let k = choose|k: int| 0 <= k < i && passes(entries, level, listed[j], k);
                    assert(passes(entries, level, path, k));
                    assert(self@[entries[k].path@] == entries[k].level);
                }
                if allowed(self@, level, path) {
                    let k = choose|k: int| holds(entries, path, k);
                    assert(holds(entries, path, k));
                    assert(self@[entries[k].path@] == entries[k].level);
                }
            }
        }
        paths
    }

    /// The admission predicate for call sites of severity `level`, or `None`
    /// where no path may emit at `level`, so that no site of that severity is
    /// ever admitted.
    pub fn path_check(&self, level: Level) -> (check: Option<PathCheck>)
        ensures
            match check {
                Some(check) => lists_allowed(check@, self@, level) && check@.len() > 0,
                None => forall|path: Seq<char>| !allowed(self@, level, path),
            },
    {
        let paths = self.paths_for_level(level);
        if paths.len() == 0 {
            assert forall|path: Seq<char>| !allowed(self@, level, path) by {
                assert(!paths.deep_view().contains(path));
            }
            return None;
        }
        let mut needles: Vec<String> = Vec::new();
        let mut i: usize = 0;
        while i < paths.len()
            invariant
                0 <= i <= paths.len(),
                needles.deep_view() == paths.deep_view().take(i as int),
            decreases paths.len() - i,
        {
            let ghost before = needles.deep_view();
            needles.push(String::from_str(paths[i]));
            assert(needles.deep_view() =~= before.push(paths[i as int]@));
            assert(paths.deep_view().take(i + 1) =~= paths.deep_view().take(i as int).push(
                paths[i as int]@,
            ));
            i += 1;
        }
        assert(paths.deep_view().take(i as int) =~= paths.deep_view());
        Some(PathCheck { needles })
    }
}

/// The table of a package holds the package, and only paths that begin with
/// the text of its name.
pub proof fn lemma_table_covers_package(directives: Seq<SpecDirective>, krate: Seq<char>)
    ensures
        filter_table(directives, krate).contains_key(krate),
        forall|path: Seq<char>| #[trigger]
            filter_table(directives, krate).contains_key(path) ==> krate.is_prefix_of(path),
{
    assert(krate.is_prefix_of(krate));
}

/// Where no directive names the package, its threshold is the last bare
/// level, or `Error` without one.
pub proof fn lemma_package_default(directives: Seq<SpecDirective>, krate: Seq<char>)
    requires
        explicit_level(directives, krate) is None,
    ensures
        filter_table(directives, krate)[krate] == default_level(directives),
        fallback_level(directives) is None ==> filter_table(directives, krate)[krate]
            == Level::Error,
{
}

/// The last directive that names a path decides its level, whatever stands
/// before it.
pub proof fn lemma_last_directive_wins(
    directives: Seq<SpecDirective>,
    path: Seq<char>,
    level: Level,
    krate: Seq<char>,
)
    requires
        krate.is_prefix_of(path),
    ensures
        filter_table(directives.push(SpecDirective::Path { path, level }), krate)[path] == level,
        filter_table(directives.push(SpecDirective::Path { path, level }), krate).contains_key(
            path,
        ),
{
    let all = directives.push(SpecDirective::Path { path, level });
    assert(all.last() == SpecDirective::Path { path, level });
}

/// A bare level names no path: behind other directives it changes the
/// table of a package at most in the threshold of the package itself.
pub proof fn lemma_fallback_names_no_path(
    directives: Seq<SpecDirective>,
    level: Level,
    krate: Seq<char>,
    path: Seq<char>,
)
    requires
        path != krate,
    ensures
        filter_table(directives.push(SpecDirective::Fallback(level)), krate).contains_key(path)
            == filter_table(directives, krate).contains_key(path),
        filter_table(directives, krate).contains_key(path) ==> filter_table(
            directives.push(SpecDirective::Fallback(level)),
            krate,
        )[path] == filter_table(directives, krate)[path],
{
    let all = directives.push(SpecDirective::Fallback(level));
    assert(all.last() == SpecDirective::Fallback(level));
    assert(all.drop_last() =~= directives);
}

/// A named path of the table is named by one of the directives.
pub proof fn lemma_explicit_level_is_named(directives: Seq<SpecDirective>, path: Seq<char>) -> (i:
    int)
    requires
        explicit_level(directives, path) is Some,
    ensures
        0 <= i < directives.len(),
        directives[i] == (SpecDirective::Path {
            path,
            level: explicit_level(directives, path)->0,
        }),
    decreases directives.len(),
{
    match directives.last() {
        SpecDirective::Path { path: named, level } if named == path => directives.len() - 1,
        _ => {
            let i = lemma_explicit_level_is_named(directives.drop_last(), path);
            assert(directives.drop_last()[i] == directives[i]);
            i
        },
    }
}

/// Where no directive is malformed, each is read without error.
pub proof fn lemma_no_failure(items: Seq<Seq<char>>, i: int)
    requires
        first_failure(items) is None,
        0 <= i < items.len(),
    ensures
        read_directive(items[i]) is Ok,
    decreases items.len(),
{
    if i < items.len() - 1 {
        assert(items.drop_last()[i] == items[i]);
        lemma_no_failure(items.drop_last(), i);
    }
}

/// Every path of the table of an accepted filter string, but for the name of
/// the package, is a path without fault: not empty, and made of identifiers.
pub proof fn lemma_keys_are_paths(input: Option<Seq<char>>, krate: Seq<char>, path: Seq<char>)
    requires
        filter_outcome(input, krate) is Ok,
        filter_outcome(input, krate)->Ok_0.contains_key(path),
        path != krate,
    ensures
        crate::directive::path_error(path) is None,
{
    let items = directive_items(input);
    let directives = directives_of(items);
    let i = lemma_explicit_level_is_named(directives, path);
    lemma_no_failure(items, i);
}

/// Building twice from one filter string and one package name gives one
/// outcome: the same table, or the same error.
pub proof fn lemma_construction_is_deterministic(
    first: Result<EnvFilter, FilterError>,
    second: Result<EnvFilter, FilterError>,
    input: Option<Seq<char>>,
    krate: Seq<char>,
)
    requires
        outcome_view(first) == filter_outcome(input, krate),
        outcome_view(second) == filter_outcome(input, krate),
    ensures
        outcome_view(first) == outcome_view(second),
        first is Ok ==> second is Ok && first->Ok_0@ == second->Ok_0@,
{
}

/// Two strictly increasing lists with the same elements are one list.
pub proof fn lemma_sorted_lists_agree(a: Seq<Seq<char>>, b: Seq<Seq<char>>)
    requires
        strictly_sorted(a),
        strictly_sorted(b),
        forall|path: Seq<char>| a.contains(path) <==> b.contains(path),
    ensures
        a == b,
    decreases a.len(),
{
    if a.len() == 0 {
        if b.len() > 0 {
            assert(b.contains(b[0]));
        }
        assert(a =~= b);
    } else if b.len() == 0 {
        assert(a.contains(a[0]));
    } else {
        assert(a.contains(a[0]) && b.contains(b[0]));
        let j = choose|j: int| 0 <= j < b.len() && b[j] == a[0];
        let i = choose|i: int| 0 <= i < a.len() && a[i] == b[0];
        lemma_lex_lt_irreflexive(a[0]);
        if j > 0 {
            assert(lex_lt(b[0], b[j]));
            if i > 0 {
                assert(lex_lt(a[0], a[i]));
                lemma_lex_lt_transitive(a[0], b[0], a[0]);
            }
        }
        assert(a[0] == b[0]);
        let x = a.drop_first();
        let y = b.drop_first();
        assert forall|p: int, q: int| 0 <= p < q < x.len() implies lex_lt(
            #[trigger] x[p],
            #[trigger] x[q],
        ) by {
            assert(lex_lt(a[p + 1], a[q + 1]));
        }
        assert forall|p: int, q: int| 0 <= p < q < y.len() implies lex_lt(
            #[trigger] y[p],
            #[trigger] y[q],
        ) by {
            assert(lex_lt(b[p + 1], b[q + 1]));
        }
        assert forall|path: Seq<char>| x.contains(path) <==> y.contains(path) by {
            if x.contains(path) {
                let k = choose|k: int| 0 <= k < x.len() && x[k] == path;
                assert(a[k + 1] == path);
                assert(a.contains(path));
                let m = choose|m: int| 0 <= m < b.len() && b[m] == path;
                if m == 0 {
                    assert(lex_lt(a[0], a[k + 1]));
                    lemma_lex_lt_irreflexive(path);
                }
                assert(y[m - 1] == path);
            }
            if y.contains(path) {
                let k = choose|k: int| 0 <= k < y.len() && y[k] == path;
                assert(b[k + 1] == path);
                assert(b.contains(path));
                let m = choose|m: int| 0 <= m < a.len() && a[m] == path;
                if m == 0 {
                    assert(lex_lt(b[0], b[k + 1]));
                    lemma_lex_lt_irreflexive(path);
                }
                assert(x[m - 1] == path);
            }
        }
        lemma_sorted_lists_agree(x, y);
        assert(a =~= seq![a[0]] + x);
        assert(b =~= seq![b[0]] + y);
    }
}

/// The list of the paths that may emit at a level is settled by the table:
/// two lists of them are one list, in one order.
pub proof fn lemma_listing_is_unique(
    a: Seq<Seq<char>>,
    b: Seq<Seq<char>>,
    table: Map<Seq<char>, Level>,
    level: Level,
)
    requires
        lists_allowed(a, table, level),
        lists_allowed(b, table, level),
    ensures
        a == b,
{
    assert forall|path: Seq<char>| a.contains(path) <==> b.contains(path) by {
        assert(a.contains(path) <==> allowed(table, level, path));
        assert(b.contains(path) <==> allowed(table, level, path));
    }
    lemma_sorted_lists_agree(a, b);
}

/// What may emit at a level may emit at every more restrictive level.
pub proof fn lemma_allowed_is_monotonic(
    table: Map<Seq<char>, Level>,
    lower: Level,
    higher: Level,
    path: Seq<char>,
)
    requires
        allowed(table, lower, path),
        lower.rank() <= higher.rank(),
    ensures
        allowed(table, higher, path),
{
}

/// A path admits itself and everything that goes on behind it with the
/// first byte of a separator, and nothing that goes on with another byte.
pub proof fn lemma_segment_prefix(needle: Seq<u8>, next: u8, rest: Seq<u8>)
    ensures
        segment_prefix(needle, needle),
        segment_prefix(needle, needle + seq![next] + rest) == (next == SEPARATOR_START),
{
    let longer = needle + seq![next] + rest;
    assert(longer.subrange(0, needle.len() as int) =~= needle);
    assert(needle.subrange(0, needle.len() as int) =~= needle);
    assert(longer[needle.len() as int] == next);
}

/// A haystack shorter than a needle, or one that differs from it in a byte,
/// is not admitted by that needle.
pub proof fn lemma_segment_prefix_needs_prefix(needle: Seq<u8>, haystack: Seq<u8>, i: int)
    requires
        0 <= i < needle.len(),
        i >= haystack.len() || haystack[i] != needle[i],
    ensures
        !segment_prefix(needle, haystack),
{
    if needle.is_prefix_of(haystack) {
        assert(haystack.subrange(0, needle.len() as int)[i] == needle[i]);
    }
}


/// The UTF-8 form of texts put together is their UTF-8 forms put together.
pub proof fn lemma_utf8_of_concat(a: Seq<char>, b: Seq<char>)
    ensures
        encode_utf8(a + b) == encode_utf8(a) + encode_utf8(b),
    decreases a.len(),
{
    if a.len() == 0 {
        assert(a + b =~= b);
        assert(encode_utf8(a) + encode_utf8(b) =~= encode_utf8(b));
    } else {
        assert((a + b).drop_first() =~= a.drop_first() + b);
        lemma_utf8_of_concat(a.drop_first(), b);
        assert(encode_utf8(a + b) =~= encode_utf8(a) + encode_utf8(b));
    }
}

/// The UTF-8 form of a text begins with the first byte of a separator
/// exactly where the text begins with a colon.
pub proof fn lemma_utf8_starts_with_colon(text: Seq<char>)
    requires
        text.len() > 0,
    ensures
        encode_utf8(text).len() > 0,
        (encode_utf8(text)[0] == SEPARATOR_START) == (text[0] == ':'),
{
    let c = text[0] as u32;
    assert(c <= 0x7F ==> (((c & 0x7F) as u8 == 0x3au8) == (c == 0x3au32))) by (bit_vector);
    assert((0xC0u8 | ((c >> 6) & 0x1F) as u8) != 0x3au8) by (bit_vector);
    assert((0xE0u8 | ((c >> 12) & 0x0F) as u8) != 0x3au8) by (bit_vector);
    assert((0xF0u8 | ((c >> 18) & 0x7) as u8) != 0x3au8) by (bit_vector);
    assert(c >= 0x80 ==> c != 0x3au32);
    let first = vstd::utf8::encode_scalar(c);
    assert(encode_utf8(text)[0] == first[0]);
    assert((text[0] == ':') == (c == 0x3au32)) by {
        assert(':' as u32 == 0x3au32);
        vstd::utf8::char_u32_cast(text[0], c);
        vstd::utf8::char_u32_cast(':', 0x3au32);
    }
}

/// A path is a segment prefix of itself and of every path below it, and of
/// no text that goes on behind it with another character than a colon.
pub proof fn lemma_path_is_prefix_of_descendants(path: Seq<char>, next: char, rest: Seq<char>)
    ensures
        segment_prefix(encode_utf8(path), encode_utf8(path)),
        segment_prefix(encode_utf8(path), encode_utf8(path + seq![next] + rest)) == (next == ':'),
{
    let tail = seq![next] + rest;
    assert(path + seq![next] + rest =~= path + tail);
    lemma_utf8_of_concat(path, tail);
    lemma_utf8_starts_with_colon(tail);
    let needle = encode_utf8(path);
    let longer = needle + encode_utf8(tail);
    assert(needle.subrange(0, needle.len() as int) =~= needle);
    assert(longer.subrange(0, needle.len() as int) =~= needle);
    assert(longer[needle.len() as int] == encode_utf8(tail)[0]);
}

/// A predicate admits each of its paths and every path below one of them.
pub proof fn lemma_admits_descendants(needles: Seq<Seq<char>>, i: int, below: Seq<char>)
    requires
        0 <= i < needles.len(),
    ensures
        admits(needles, encode_utf8(needles[i])),
        admits(needles, encode_utf8(needles[i] + seq![':', ':'] + below)),
{
    let path = needles[i];
    lemma_path_is_prefix_of_descendants(path, ':', seq![':'] + below);
    assert(path + seq![':'] + (seq![':'] + below) =~= path + seq![':', ':'] + below);
}

/// An admission predicate: the paths below which call sites are admitted.
#[derive(Debug)]
pub struct PathCheck {
    needles: Vec<String>,
}

impl View for PathCheck {
    type V = Seq<Seq<char>>;

    closed spec fn view(&self) -> Seq<Seq<char>> {
        self.needles.deep_view()
    }
}

/// Whether `haystack` begins with the bytes of `needle`.
fn has_prefix(haystack: &[u8], needle: &[u8]) -> (r: bool)
    ensures
        r == needle@.is_prefix_of(haystack@),
{
    let n = needle.len();
    if n > haystack.len() {
        return false;
    }
    let mut i: usize = 0;
    while i < n
        invariant
            0 <= i <= n,
            n == needle@.len(),
            n <= haystack@.len(),
            forall|j: int| 0 <= j < i ==> haystack@[j] == needle@[j],
        decreases n - i,
    {
        if haystack[i] != needle[i] {
            return false;
        }
        i += 1;
    }
    assert(needle@ =~= haystack@.subrange(0, n as int));
    true
}

impl PathCheck {
    /// The paths of the predicate, in increasing order.
    pub fn needles(&self) -> (needles: &Vec<String>)
        ensures
            needles.deep_view() == self@,
    {
        &self.needles
    }

    /// Whether a call site in the namespace path `haystack`, given as bytes,
    /// is admitted: some path of the predicate is a prefix of `haystack` and
    /// ends in it at the end of a segment.
    ///
    /// Only the first byte of the separator is tested; `haystack` is taken to
    /// be a well-formed path.
    pub fn matches(&self, haystack: &[u8]) -> (r: bool)
        ensures
            r == admits(self@, haystack@),
    {
        let mut i: usize = 0;
        while i < self.needles.len()
            invariant
                0 <= i <= self.needles.len(),
                forall|j: int|
                    0 <= j < i ==> !segment_prefix(encode_utf8(#[trigger] self@[j]), haystack@),
            decreases self.needles.len() - i,
        {
            let needle = self.needles[i].as_str().as_bytes();
            assert(needle@ == encode_utf8(self@[i as int]));
            if has_prefix(haystack, needle) {
                let n = needle.len();
                if n == haystack.len() || haystack[n] == SEPARATOR_START {
                    return true;
                }
            }
            i += 1;
        }
        false
    }
}

} // verus!
