//! The include/exclude rule that decides which directory entries take part.

use vstd::prelude::*;
use vstd::utf8::encode_utf8;
use wax::{BuildError, Glob, Pattern};

verus! {

/// `wax::Glob`, a glob that has been built from a pattern.
#[verifier::external_type_specification]
#[verifier::external_body]
pub struct ExGlob<'t>(Glob<'t>);

/// `wax::BuildError`, why a pattern did not build.
#[verifier::external_type_specification]
#[verifier::external_body]
pub struct ExBuildError<'t>(BuildError<'t>);

/// The most groups, alternatives `{..}` and repetitions `<..>` together,
/// that a pattern may open.
pub const MAX_GROUPS: usize = 32;

/// Whether a byte is an ASCII decimal digit.
pub open spec fn is_digit(byte: u8) -> bool {
    0x30 <= byte <= 0x39
}

/// How often `byte` occurs in `bytes`.
pub open spec fn occurrences(bytes: Seq<u8>, byte: u8) -> nat
    decreases bytes.len(),
{
    if bytes.len() == 0 {
        0
    } else {
        occurrences(bytes.drop_last(), byte) + if bytes.last() == byte {
            1nat
        } else {
            0nat
        }
    }
}

/// The product of the numbers that end before the last byte of `bytes`, and
/// the number, if any, that the last bytes are the digits of (else zero). A
/// number is a longest run of digits; a number that is zero counts as one.
pub open spec fn numbers(bytes: Seq<u8>) -> (nat, nat)
    decreases bytes.len(),
{
    if bytes.len() == 0 {
        (1, 0)
    } else {
        let (finished, current) = numbers(bytes.drop_last());
        if is_digit(bytes.last()) {
            (finished, current * 10 + (bytes.last() - 0x30) as nat)
        } else {
            (finished * at_least_one(current), 0)
        }
    }
}

/// `n`, or one where `n` is zero.
pub open spec fn at_least_one(n: nat) -> nat {
    if n == 0 {
        1
    } else {
        n
    }
}

/// The product of all the numbers written in `bytes`, a zero counted as one.
pub open spec fn number_product(bytes: Seq<u8>) -> nat {
    numbers(bytes).0 * at_least_one(numbers(bytes).1)
}

/// Whether a pattern, as UTF-8 bytes, is within the limits under which it is
/// handed to the glob crate. It opens at most `MAX_GROUPS` groups. If it has
/// a repetition, its length times the product of the numbers in it is at most
/// `u32::MAX`: this bounds every repetition count, and the length of any
/// text that the repetitions could spell out.
pub open spec fn within_limits(bytes: Seq<u8>) -> bool {
    &&& occurrences(bytes, 0x7b) + occurrences(bytes, 0x3c) <= MAX_GROUPS
    &&& occurrences(bytes, 0x3c) > 0 ==> bytes.len() * number_product(bytes) <= u32::MAX
}

/// The product of the numbers in a prefix is at most that in the whole, and
/// the product of the finished numbers is never zero.
pub proof fn lemma_number_product_grows(bytes: Seq<u8>, n: int)
    requires
        0 <= n <= bytes.len(),
    ensures
        number_product(bytes.take(n)) <= number_product(bytes),
        numbers(bytes).0 >= 1,
    decreases bytes.len(),
{
    if bytes.len() > 0 {
        let rest = bytes.drop_last();
        let (finished, current) = numbers(rest);
        lemma_number_product_grows(rest, if n == bytes.len() { n - 1 } else { n });
        assert(finished * at_least_one(current) >= 1) by (nonlinear_arith)
            requires
                finished >= 1,
                at_least_one(current) >= 1,
        ;
        if is_digit(bytes.last()) {
            let next = current * 10 + (bytes.last() - 0x30) as nat;
            assert(finished * at_least_one(current) <= finished * at_least_one(next))
                by (nonlinear_arith)
                requires
                    at_least_one(current) <= at_least_one(next),
            ;
        }
        assert(number_product(rest) <= number_product(bytes));
        if n == bytes.len() {
            assert(bytes.take(n) =~= bytes);
        } else {
            assert(rest.take(n) =~= bytes.take(n));
        }
    } else {
        assert(bytes.take(n) =~= bytes);
    }
}

/// How often `byte` occurs in the text.
fn count_byte(bytes: &[u8], byte: u8) -> (count: usize)
    ensures
        count == occurrences(bytes@, byte),
{
    let mut count: usize = 0;
    let mut i: usize = 0;
    while i < bytes.len()
        invariant
            i <= bytes.len(),
            count <= i,
            count == occurrences(bytes@.take(i as int), byte),
        decreases bytes.len() - i,
    {
        assert(bytes@.take(i + 1).drop_last() =~= bytes@.take(i as int));
        if bytes[i] == byte {
            count = count + 1;
        }
        i = i + 1;
    }
    assert(bytes@.take(bytes.len() as int) =~= bytes@);
    count
}

/// Whether the length of the text times the product of the numbers in it is
/// at most `u32::MAX`.
fn numbers_are_small(bytes: &[u8]) -> (small: bool)
    ensures
        small == (bytes@.len() * number_product(bytes@) <= u32::MAX),
{
    let limit: u64 = 0xffff_ffff;
    let mut finished: u64 = 1;
    let mut current: u64 = 0;
    let mut i: usize = 0;
    while i < bytes.len()
        invariant
            i <= bytes.len(),
            limit == u32::MAX,
            finished <= limit,
            current <= limit,
            numbers(bytes@.take(i as int)) == (finished as nat, current as nat),
        decreases bytes.len() - i,
    {
        assert(bytes@.take(i + 1).drop_last() =~= bytes@.take(i as int));
        let byte = bytes[i];
        let factor: u64 = if current == 0 {
            1
        } else {
            current
        };
        assert(finished * factor <= limit * limit) by (nonlinear_arith)
            requires
                finished <= limit,
                factor <= limit,
        ;
        let (next_finished, next_current): (u64, u64) = if 0x30 <= byte && byte <= 0x39 {
            (finished, current * 10 + (byte - 0x30) as u64)
        } else {
            (finished * factor, 0)
        };
        if next_finished > limit || next_current > limit {
            proof {
                let seen = bytes@.take(i + 1);
                lemma_number_product_grows(bytes@, i + 1);
                lemma_number_product_grows(seen, i + 1);
                assert(number_product(seen) > limit) by (nonlinear_arith)
                    requires
                        number_product(seen) == next_finished * at_least_one(next_current as nat),
                        next_finished >= 1,
                        at_least_one(next_current as nat) >= 1,
                        next_finished > limit || at_least_one(next_current as nat) > limit,
                ;
                assert(bytes@.len() * number_product(bytes@) > limit) by (nonlinear_arith)
                    requires
                        bytes@.len() >= 1,
                        number_product(bytes@) > limit,
                ;
            }
            return false;
        }
        finished = next_finished;
        current = next_current;
        i = i + 1;
    }
    assert(bytes@.take(bytes.len() as int) =~= bytes@);
    let factor: u64 = if current == 0 {
        1
    } else {
        current
    };
    assert(finished * factor <= limit * limit) by (nonlinear_arith)
        requires
            finished <= limit,
            factor <= limit,
    ;
    let product: u64 = finished * factor;
    let length: u64 = bytes.len() as u64;
    if product > limit {
        // Without a byte there is no number, so there is a byte here.
        assert(bytes@.len() >= 1);
        assert(bytes@.len() * number_product(bytes@) > limit) by (nonlinear_arith)
            requires
                bytes@.len() >= 1,
                number_product(bytes@) > limit,
        ;
        return false;
    }
    match length.checked_mul(product) {
        Some(total) => total <= limit,
        None => false,
    }
}

/// Whether a pattern is within the limits under which it is handed to the
/// glob crate: whether its UTF-8 bytes are.
pub open spec fn pattern_within_limits(pattern: Seq<char>) -> bool {
    within_limits(encode_utf8(pattern))
}

/// Whether a pattern is within the limits under which it is handed to the
/// glob crate.
pub fn check_limits(pattern: &str) -> (ok: bool)
    ensures
        ok == pattern_within_limits(pattern@),
{
    let bytes = pattern.as_bytes();
    let alternatives = count_byte(bytes, 0x7b);
    let repetitions = count_byte(bytes, 0x3c);
    if alternatives > MAX_GROUPS || repetitions > MAX_GROUPS || alternatives + repetitions
        > MAX_GROUPS {
        return false;
    }
    repetitions == 0 || numbers_are_small(bytes)
}

/// The pattern that a glob was built from.
pub uninterp spec fn glob_source(glob: Glob<'static>) -> Seq<char>;

/// `Glob::new` on the pattern, the glob or the error then made to own its
/// text with `into_owned`. A glob that is built holds the pattern it was
/// built from. Which patterns build, and which paths the glob then matches,
/// is left to the glob crate and differs between platforms.
///
/// The limits keep away the patterns on which the glob crate does not
/// return: a repetition count that its regular expression cannot hold, a
/// repeated text whose length overflows, and groups nested deeper than its
/// regular expression may be.
#[verifier::external_body]
fn build_glob(pattern: &str) -> (built: Result<Glob<'static>, BuildError<'static>>)
    requires
        pattern_within_limits(pattern@),
    ensures
        built matches Ok(glob) ==> glob_source(glob) == pattern@,
{
    match Glob::new(pattern) {
        Ok(glob) => Ok(glob.into_owned()),
        Err(error) => Err(error.into_owned()),
    }
}

/// The paths that a glob matches.
pub uninterp spec fn glob_paths(glob: Glob<'static>) -> Set<Seq<char>>;

/// `Pattern::is_match` of the glob on the whole path: whether the path is
/// one of those that the glob matches. One glob gives one answer for one
/// path, whenever it is asked.
#[verifier::external_body]
fn glob_is_match(glob: &Glob<'static>, path: &str) -> (matched: bool)
    ensures
        matched == glob_paths(*glob).contains(path@),
{
    glob.is_match(path)
}

/// Whether a rule keeps the paths that match its glob, or the others.
#[derive(Clone, Copy, Debug, PartialEq, Eq, Structural)]
pub enum FilterMode {
    Include,
    Exclude,
}

impl FilterMode {
    /// Whether a path takes part, given whether the glob matched it.
    pub open spec fn keeps(self, matched: bool) -> bool {
        match self {
            FilterMode::Include => matched,
            FilterMode::Exclude => !matched,
        }
    }

    /// The other mode.
    pub open spec fn opposite(self) -> FilterMode {
        match self {
            FilterMode::Include => FilterMode::Exclude,
            FilterMode::Exclude => FilterMode::Include,
        }
    }

    /// The other mode.
    pub fn other(self) -> (mode: FilterMode)
        ensures
            mode == self.opposite(),
    {
        match self {
            FilterMode::Include => FilterMode::Exclude,
            FilterMode::Exclude => FilterMode::Include,
        }
    }

    /// Whether a path takes part, given whether the glob matched it:
    /// `Include` keeps the matches, `Exclude` keeps the rest.
    #[verifier::when_used_as_spec(keeps)]
    pub fn decide(self, matched: bool) -> (kept: bool)
        ensures
            kept == self.keeps(matched),
    {
        match self {
            FilterMode::Include => matched,
            FilterMode::Exclude => !matched,
        }
    }
}

/// The pattern of a rule is past the limits, or did not build.
#[derive(Clone, Copy, Debug, PartialEq, Eq, Structural)]
pub struct InvalidGlob;

/// A rule: a mode and a glob that has been built.
#[derive(Debug)]
pub struct FileFilter {
    mode: FilterMode,
    glob: Glob<'static>,
}

impl FileFilter {
    /// The mode of the rule.
    pub closed spec fn spec_mode(&self) -> FilterMode {
        self.mode
    }

    /// The paths that the glob of the rule matches.
    pub closed spec fn paths(&self) -> Set<Seq<char>> {
        glob_paths(self.glob)
    }

    /// The pattern that the glob of the rule was built from.
    pub closed spec fn source(&self) -> Seq<char> {
        glob_source(self.glob)
    }

    /// Whether a path takes part under the rule: under `Include` the paths
    /// that the glob matches, under `Exclude` the others.
    pub open spec fn accepts(&self, path: Seq<char>) -> bool {
        self.spec_mode().keeps(self.paths().contains(path))
    }

    /// The rule made of a mode and what building its pattern gave.
    pub fn from_built(
        mode: FilterMode,
        built: Result<Glob<'static>, BuildError<'static>>,
    ) -> (rule: Result<FileFilter, InvalidGlob>)
        ensures
            rule is Ok <==> built is Ok,
            rule matches Ok(filter) ==> filter.spec_mode() == mode,
            rule matches Ok(filter) ==> (built matches Ok(glob) && filter.paths() == glob_paths(
                glob,
            ) && filter.source() == glob_source(glob)),
    {
        match built {
            Ok(glob) => Ok(FileFilter { mode, glob }),
            Err(_) => Err(InvalidGlob),
        }
    }

    /// The rule with the given mode and pattern, or `InvalidGlob` where the
    /// pattern is past the limits or does not build. Which of the patterns
    /// within the limits build, and which paths the glob then matches, is for
    /// the glob crate to say.
    pub fn new(mode: FilterMode, pattern: &str) -> (rule: Result<FileFilter, InvalidGlob>)
        ensures
            !pattern_within_limits(pattern@) ==> rule is Err,
            rule matches Ok(filter) ==> filter.spec_mode() == mode && filter.source()
                == pattern@,
    {
        if !check_limits(pattern) {
            return Err(InvalidGlob);
        }
        FileFilter::from_built(mode, build_glob(pattern))
    }

    /// The rule with the other mode over the same glob: it accepts exactly
    /// the paths that this rule does not.
    pub fn inverted(self) -> (rule: FileFilter)
        ensures
            rule.spec_mode() == self.spec_mode().opposite(),
            rule.paths() == self.paths(),
            rule.source() == self.source(),
            forall|path: Seq<char>| rule.accepts(path) == !#[trigger] self.accepts(path),
    {
        FileFilter { mode: self.mode.other(), glob: self.glob }
    }

    /// The mode of the rule.
    #[verifier::when_used_as_spec(spec_mode)]
    pub fn mode(&self) -> (mode: FilterMode)
        ensures
            mode == self.spec_mode(),
    {
        self.mode
    }

    /// Whether the glob of the rule matches the whole of `path`.
    pub fn matches(&self, path: &str) -> (matched: bool)
        ensures
            matched == self.paths().contains(path@),
    {
        glob_is_match(&self.glob, path)
    }

    /// Whether `path` takes part under this rule.
    pub fn include_path(&self, path: &str) -> (kept: bool)
        ensures
            kept == self.accepts(path@),
    {
        self.mode.decide(self.matches(path))
    }

    /// For each entry in turn, whether the glob of the rule matches it.
    pub fn match_each(&self, entries: &Vec<String>) -> (matched: Vec<bool>)
        ensures
            matched@ == answers(self.paths(), entries@),
    {
        let mut matched: Vec<bool> = Vec::new();
        let mut i: usize = 0;
        while i < entries.len()
            invariant
                i <= entries.len(),
                matched.len() == i,
                forall|j: int| 0 <= j < i ==> matched[j] == self.paths().contains(entries[j]@),
            decreases entries.len() - i,
        {
            matched.push(self.matches(entries[i].as_str()));
            i = i + 1;
        }
        assert(matched@ =~= answers(self.paths(), entries@));
        matched
    }
}

/// For each entry in turn, whether it is one of `paths`.
pub open spec fn answers(paths: Set<Seq<char>>, entries: Seq<String>) -> Seq<bool> {
    Seq::new(entries.len(), |i: int| paths.contains(entries[i]@))
}

/// What a mode decides of each of the glob's answers.
pub open spec fn decisions(mode: FilterMode, matched: Seq<bool>) -> Seq<bool> {
    Seq::new(matched.len(), |i: int| mode.keeps(matched[i]))
}

/// The entries whose flag is set, in their order. An entry without a flag is dropped.
pub open spec fn retained<T>(entries: Seq<T>, keep: Seq<bool>) -> Seq<T>
    decreases entries.len(),
{
    if entries.len() == 0 {
        Seq::empty()
    } else {
        let rest = retained(entries.drop_last(), keep);
        let last = entries.len() - 1;
        if last < keep.len() && keep[last] {
            rest.push(entries.last())
        } else {
            rest
        }
    }
}

/// The entries of a directory that take part: all of them without a rule,
/// and with one those that the rule accepts, in their order.
pub open spec fn selected(filter: Option<FileFilter>, entries: Seq<String>) -> Seq<String> {
    match filter {
        None => entries,
        Some(rule) => retained(
            entries,
            decisions(rule.spec_mode(), answers(rule.paths(), entries)),
        ),
    }
}

impl FilterMode {
    /// What the mode decides of each of the glob's answers.
    pub fn decide_each(self, matched: &Vec<bool>) -> (keep: Vec<bool>)
        ensures
            keep@ == decisions(self, matched@),
    {
        let mut keep: Vec<bool> = Vec::new();
        let mut i: usize = 0;
        while i < matched.len()
            invariant
                i <= matched.len(),
                keep.len() == i,
                forall|j: int| 0 <= j < i ==> keep[j] == self.keeps(matched[j]),
            decreases matched.len() - i,
        {
            keep.push(self.decide(matched[i]));
            i = i + 1;
        }
        assert(keep@ =~= decisions(self, matched@));
        keep
    }
}

/// The entries whose flag is set, in their order.
pub fn retain_flagged(entries: Vec<String>, keep: &Vec<bool>) -> (kept: Vec<String>)
    ensures
        kept@ == retained(entries@, keep@),
{
    let mut kept: Vec<String> = Vec::new();
    let mut i: usize = 0;
    while i < entries.len()
        invariant
            i <= entries.len(),
            kept@ == retained(entries@.take(i as int), keep@),
        decreases entries.len() - i,
    {
        assert(entries@.take(i + 1).drop_last() =~= entries@.take(i as int));
        if i < keep.len() && keep[i] {
            kept.push(entries[i].clone());
        }
        i = i + 1;
    }
    assert(entries@.take(entries.len() as int) =~= entries@);
    kept
}

/// The entries of a directory that take part: all of them without a rule,
/// and with one those that the rule accepts, in their order.
pub fn select_entries(entries: Vec<String>, filter: &Option<FileFilter>) -> (kept: Vec<String>)
    ensures
        kept@ == selected(*filter, entries@),
{
    match filter {
        None => entries,
        Some(rule) => {
            let matched = rule.match_each(&entries);
            let keep = rule.mode().decide_each(&matched);
            retain_flagged(entries, &keep)
        },
    }
}

/// An entry is retained exactly if it stands at a position whose flag is set.
pub proof fn lemma_retained_contains<T>(entries: Seq<T>, keep: Seq<bool>, entry: T)
    requires
        entries.len() <= keep.len(),
    ensures
        retained(entries, keep).contains(entry) <==> exists|i: int|
            0 <= i < entries.len() && keep[i] && #[trigger] entries[i] == entry,
    decreases entries.len(),
{
    let kept = retained(entries, keep);
    if entries.len() > 0 {
        let rest = entries.drop_last();
        let last = entries.len() - 1;
        let kept_rest = retained(rest, keep);
        lemma_retained_contains(rest, keep, entry);
        if kept.contains(entry) {
            let k = choose|k: int| 0 <= k < kept.len() && kept[k] == entry;
            if keep[last] && k == kept_rest.len() {
                assert(entries[last] == entry);
            } else {
                assert(kept_rest[k] == entry);
                let i = choose|i: int|
                    0 <= i < rest.len() && keep[i] && #[trigger] rest[i] == entry;
                assert(entries[i] == entry);
            }
        }
        if exists|i: int| 0 <= i < entries.len() && keep[i] && #[trigger] entries[i] == entry {
            let i = choose|i: int|
                0 <= i < entries.len() && keep[i] && #[trigger] entries[i] == entry;
            if i == last {
                assert(kept[kept_rest.len() as int] == entry);
            } else {
                assert(rest[i] == entry);
                let k = choose|k: int| 0 <= k < kept_rest.len() && kept_rest[k] == entry;
                assert(kept[k] == entry);
            }
        }
    }
}

/// Over the same entries and the same answers of the glob, `Include` and
/// `Exclude` split the entries between them: every entry is kept by exactly
/// one of the two.
pub proof fn lemma_modes_split_entries<T>(entries: Seq<T>, matched: Seq<bool>)
    requires
        entries.len() <= matched.len(),
    ensures
        retained(entries, decisions(FilterMode::Include, matched)).to_multiset().add(
            retained(entries, decisions(FilterMode::Exclude, matched)).to_multiset(),
        ) == entries.to_multiset(),
    decreases entries.len(),
{
    let included = retained(entries, decisions(FilterMode::Include, matched));
    let excluded = retained(entries, decisions(FilterMode::Exclude, matched));
    if entries.len() == 0 {
        assert forall|x: T|
            entries.to_multiset().count(x) == included.to_multiset().add(
                excluded.to_multiset(),
            ).count(x) by {
            assert(included =~= entries);
            assert(excluded =~= entries);
            vstd::seq_lib::to_multiset_contains(entries, x);
        }
        assert(entries.to_multiset() =~= included.to_multiset().add(excluded.to_multiset()));
    } else {
        let rest = entries.drop_last();
        let last = entries.last();
        let included_rest = retained(rest, decisions(FilterMode::Include, matched));
        let excluded_rest = retained(rest, decisions(FilterMode::Exclude, matched));
        lemma_modes_split_entries(rest, matched);
        assert(entries =~= rest.push(last));
        vstd::seq_lib::to_multiset_build(rest, last);
        vstd::seq_lib::to_multiset_build(included_rest, last);
        vstd::seq_lib::to_multiset_build(excluded_rest, last);
        assert(included.to_multiset().add(excluded.to_multiset()) =~= entries.to_multiset());
    }
}

/// An `Include` rule and an `Exclude` rule over the same glob select
/// complementary entries of the same listing: every entry is selected by
/// exactly one of them, so the two selections together are the listing and
/// have nothing in common. A rule and the rule that `inverted` makes of it
/// are two such rules.
pub proof fn lemma_include_exclude_complementary(
    keeping: FileFilter,
    dropping: FileFilter,
    entries: Seq<String>,
)
    requires
        keeping.spec_mode() == FilterMode::Include,
        dropping.spec_mode() == FilterMode::Exclude,
        keeping.paths() == dropping.paths(),
    ensures
        selected(Some(keeping), entries).to_multiset().add(
            selected(Some(dropping), entries).to_multiset(),
        ) == entries.to_multiset(),
        selected(Some(keeping), entries).to_set().union(
            selected(Some(dropping), entries).to_set(),
        ) == entries.to_set(),
        selected(Some(keeping), entries).to_set().disjoint(
            selected(Some(dropping), entries).to_set(),
        ),
{
    let matched = answers(keeping.paths(), entries);
    let keep_in = decisions(FilterMode::Include, matched);
    let keep_out = decisions(FilterMode::Exclude, matched);
    let included = selected(Some(keeping), entries);
    let excluded = selected(Some(dropping), entries);
    lemma_modes_split_entries(entries, matched);
    assert forall|x: String|
        entries.to_set().contains(x) <==> included.to_set().contains(x)
            || excluded.to_set().contains(x) by {
        vstd::seq_lib::to_multiset_contains(entries, x);
        vstd::seq_lib::to_multiset_contains(included, x);
        vstd::seq_lib::to_multiset_contains(excluded, x);
    }
    assert(included.to_set().union(excluded.to_set()) =~= entries.to_set());
    assert forall|x: String| !(included.to_set().contains(x) && excluded.to_set().contains(x)) by {
        lemma_retained_contains(entries, keep_in, x);
        lemma_retained_contains(entries, keep_out, x);
        if included.contains(x) && excluded.contains(x) {
            let i = choose|i: int|
                0 <= i < entries.len() && keep_in[i] && #[trigger] entries[i] == x;
            let j = choose|j: int|
                0 <= j < entries.len() && keep_out[j] && #[trigger] entries[j] == x;
            assert(matched[i] == keeping.paths().contains(x@));
            assert(matched[j] == keeping.paths().contains(x@));
        }
    }
}

} // verus!
