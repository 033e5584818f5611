//! The target and rule model, and the rule-file parser.
//!
//! A target token is parsed by its first character: a `$` prefix names a
//! virtual target, a `^` prefix a deep concrete target (staleness over a whole
//! directory subtree), anything else a shallow concrete target (staleness of
//! the single path).
//!
//! A rule file is a flat sequence of blocks: a header line
//! `target : dep dep ...` followed by command lines, each indented with a
//! space or tab.  A block ends at the first line that is blank or unindented.
//! Text that matches neither shape is silently skipped; a later rule for the
//! same target replaces an earlier one.

use vstd::prelude::*;

verus! {

/// A buildable thing with a filesystem identity.  `Deep` staleness covers the
/// whole subtree under the path; `Shallow` only the path itself.  Targets with
/// the same path but different depth are distinct.
#[derive(Debug, PartialEq, Eq, Hash)]
pub enum ConcreteTarget {
    Deep(String),
    Shallow(String),
}

/// A node of the dependency graph: either a concrete path or a purely
/// graph-level virtual name.
#[derive(Debug, PartialEq, Eq, Hash)]
pub enum Target {
    Concrete(ConcreteTarget),
    Virtual(String),
}

/// Mathematical value of a [`ConcreteTarget`].
#[verifier::ext_equal]
pub enum CTargetV {
    Deep(Seq<char>),
    Shallow(Seq<char>),
}

/// Mathematical value of a [`Target`].
#[verifier::ext_equal]
pub enum TargetV {
    Concrete(CTargetV),
    Virtual(Seq<char>),
}

impl View for ConcreteTarget {
    type V = CTargetV;

    open spec fn view(&self) -> CTargetV {
        match self {
            ConcreteTarget::Deep(p) => CTargetV::Deep(p@),
            ConcreteTarget::Shallow(p) => CTargetV::Shallow(p@),
        }
    }
}

impl View for Target {
    type V = TargetV;

    open spec fn view(&self) -> TargetV {
        match self {
            Target::Concrete(c) => TargetV::Concrete(c@),
            Target::Virtual(n) => TargetV::Virtual(n@),
        }
    }
}

impl Clone for ConcreteTarget {
    fn clone(&self) -> (r: Self)
        ensures
            r == *self,
    {
        match self {
            ConcreteTarget::Deep(p) => ConcreteTarget::Deep(p.clone()),
            ConcreteTarget::Shallow(p) => ConcreteTarget::Shallow(p.clone()),
        }
    }
}

impl Clone for Target {
    fn clone(&self) -> (r: Self)
        ensures
            r == *self,
    {
        match self {
            Target::Concrete(c) => Target::Concrete(c.clone()),
            Target::Virtual(n) => Target::Virtual(n.clone()),
        }
    }
}

impl ConcreteTarget {
    /// The path underlying the target, whatever its depth.
    pub fn pathbuf(&self) -> (r: &String)
        ensures
            self@ matches CTargetV::Deep(p) ==> r@ == p,
            self@ matches CTargetV::Shallow(p) ==> r@ == p,
    {
        match self {
            ConcreteTarget::Deep(p) => p,
            ConcreteTarget::Shallow(p) => p,
        }
    }

    /// Structural equality of two concrete targets.
    pub fn same_as(&self, other: &ConcreteTarget) -> (r: bool)
        ensures
            r == (self@ == other@),
    {
        match (self, other) {
            (ConcreteTarget::Deep(a), ConcreteTarget::Deep(b)) => a.eq(b),
            (ConcreteTarget::Shallow(a), ConcreteTarget::Shallow(b)) => a.eq(b),
            _ => {
                proof {
                    assert(self@ != other@);
                }
                false
            },
        }
    }
}

/// What a token denotes: a `$` prefix names a virtual target, a `^` prefix a
/// deep concrete target, anything else a shallow concrete target.  The prefix
/// character is not part of the name or path.
pub open spec fn target_of(tok: Seq<char>) -> TargetV {
    if tok.len() > 0 && tok[0] == '$' {
        TargetV::Virtual(tok.skip(1))
    } else if tok.len() > 0 && tok[0] == '^' {
        TargetV::Concrete(CTargetV::Deep(tok.skip(1)))
    } else {
        TargetV::Concrete(CTargetV::Shallow(tok))
    }
}

impl Target {
    /// Reads a target token, stripping a leading `$` (virtual) or `^` (deep).
    pub fn parse(text: &str) -> (r: Target)
        ensures
            r@ == target_of(text@),
    {
        let n = text.unicode_len();
        if n > 0 && text.get_char(0) == '$' {
            let rest = text.substring_char(1, n);
            proof {
                assert(rest@ =~= text@.skip(1));
            }
            Target::Virtual(rest.to_owned())
        } else if n > 0 && text.get_char(0) == '^' {
            let rest = text.substring_char(1, n);
            proof {
                assert(rest@ =~= text@.skip(1));
            }
            Target::Concrete(ConcreteTarget::Deep(rest.to_owned()))
        } else {
            Target::Concrete(ConcreteTarget::Shallow(text.to_owned()))
        }
    }

    /// Structural equality of two targets: same variant, same name or path.
    pub fn same_as(&self, other: &Target) -> (r: bool)
        ensures
            r == (self@ == other@),
    {
        match (self, other) {
            (Target::Concrete(a), Target::Concrete(b)) => a.same_as(b),
            (Target::Virtual(a), Target::Virtual(b)) => a.eq(b),
            _ => {
                proof {
                    assert(self@ != other@);
                }
                false
            },
        }
    }
}

/// How one target is built: its dependencies, in the order they are made, and
/// its commands, in the order they run.
#[derive(Debug)]
pub struct Rule {
    pub dependencies: Vec<Target>,
    pub commands: Vec<String>,
}

/// Mathematical value of a [`Rule`].
#[verifier::ext_equal]
pub struct RuleV {
    pub dependencies: Seq<TargetV>,
    pub commands: Seq<Seq<char>>,
}

/// The views of a sequence of targets.
pub open spec fn target_views(v: Seq<Target>) -> Seq<TargetV> {
    v.map_values(|t: Target| t@)
}

/// The views of a sequence of strings.
pub open spec fn string_views(v: Seq<String>) -> Seq<Seq<char>> {
    v.map_values(|s: String| s@)
}

impl View for Rule {
    type V = RuleV;

    open spec fn view(&self) -> RuleV {
        RuleV { dependencies: target_views(self.dependencies@), commands: string_views(self.commands@) }
    }
}

/// A space or a tab: what may indent a command line.
pub open spec fn is_indent(c: char) -> bool {
    c == ' ' || c == '\t'
}

/// Whitespace within a line: space, tab or carriage return.
pub open spec fn is_ws(c: char) -> bool {
    c == ' ' || c == '\t' || c == '\r'
}

/// Index of the first newline at or after `i`, or the text's length.
pub open spec fn first_nl(s: Seq<char>, i: int) -> int
    decreases s.len() - i,
{
    if i < 0 {
        0
    } else if i >= s.len() {
        s.len() as int
    } else if s[i] == '\n' {
        i
    } else {
        first_nl(s, i + 1)
    }
}

pub proof fn lemma_first_nl_bounds(s: Seq<char>, i: int)
    requires
        0 <= i <= s.len(),
    ensures
        i <= first_nl(s, i) <= s.len(),
    decreases s.len() - i,
{
    if i < s.len() && s[i] != '\n' {
        lemma_first_nl_bounds(s, i + 1);
    }
}

/// Index of the first character at or after `i` that is not line whitespace,
/// or the line's length.
pub open spec fn first_non_ws(s: Seq<char>, i: int) -> int
    decreases s.len() - i,
{
    if i < 0 {
        0
    } else if i >= s.len() {
        s.len() as int
    } else if is_ws(s[i]) {
        first_non_ws(s, i + 1)
    } else {
        i
    }
}

pub proof fn lemma_first_non_ws(s: Seq<char>, i: int)
    requires
        0 <= i <= s.len(),
    ensures
        i <= first_non_ws(s, i) <= s.len(),
        first_non_ws(s, i) < s.len() ==> !is_ws(s[first_non_ws(s, i)]),
    decreases s.len() - i,
{
    if i < s.len() && is_ws(s[i]) {
        lemma_first_non_ws(s, i + 1);
    }
}

/// Index of the first line-whitespace character at or after `i`, or the
/// line's length.
pub open spec fn first_ws_idx(s: Seq<char>, i: int) -> int
    decreases s.len() - i,
{
    if i < 0 {
        0
    } else if i >= s.len() {
        s.len() as int
    } else if is_ws(s[i]) {
        i
    } else {
        first_ws_idx(s, i + 1)
    }
}

/// Index of the last colon strictly before `j` and after the line's first
/// character, or the line's length if there is none.
pub open spec fn last_colon_before(s: Seq<char>, j: int) -> int
    decreases j,
{
    if j <= 1 || j > s.len() {
        s.len() as int
    } else if s[j - 1] == ':' {
        j - 1
    } else {
        last_colon_before(s, j - 1)
    }
}

/// Index of the colon that separates a header line's target token from its
/// dependencies, or the line's length if there is none.  The token is the
/// line's leading run of non-whitespace; the separator is the first colon
/// after that run (only whitespace between), or failing that the last colon
/// inside the run.
pub open spec fn header_sep(line: Seq<char>) -> int {
    let w = first_ws_idx(line, 0);
    let after = first_non_ws(line, w);
    if w > 0 && after < line.len() && line[after] == ':' {
        after
    } else {
        last_colon_before(line, w)
    }
}

/// Index just after the last character before `j` that is not line
/// whitespace, or zero.
pub open spec fn trim_end_idx(s: Seq<char>, j: int) -> int
    decreases j,
{
    if j <= 0 || j > s.len() {
        0
    } else if is_ws(s[j - 1]) {
        trim_end_idx(s, j - 1)
    } else {
        j
    }
}

pub proof fn lemma_trim_end_le(s: Seq<char>, j: int)
    requires
        0 <= j,
    ensures
        0 <= trim_end_idx(s, j) <= j,
    decreases j,
{
    if 0 < j <= s.len() && is_ws(s[j - 1]) {
        lemma_trim_end_le(s, j - 1);
    }
}

pub proof fn lemma_trim_end_ge(s: Seq<char>, k: int, j: int)
    requires
        0 <= k < j <= s.len(),
        !is_ws(s[k]),
    ensures
        trim_end_idx(s, j) >= k + 1,
    decreases j,
{
    if is_ws(s[j - 1]) {
        lemma_trim_end_ge(s, k, j - 1);
    }
}

/// The line with leading and trailing whitespace removed.
pub open spec fn trim(s: Seq<char>) -> Seq<char> {
    let a = first_non_ws(s, 0);
    let b = trim_end_idx(s, s.len() as int);
    if a < b {
        s.subrange(a, b)
    } else {
        Seq::empty()
    }
}

/// The targets named by the whitespace-separated tokens of a line from
/// position `i` on, `cur` being the token in progress.
pub open spec fn deps_from(s: Seq<char>, i: int, cur: Seq<char>) -> Seq<TargetV>
    decreases s.len() - i,
{
    if i < 0 || i >= s.len() {
        if cur.len() > 0 {
            seq![target_of(cur)]
        } else {
            Seq::empty()
        }
    } else if is_ws(s[i]) {
        if cur.len() > 0 {
            seq![target_of(cur)] + deps_from(s, i + 1, Seq::empty())
        } else {
            deps_from(s, i + 1, Seq::empty())
        }
    } else {
        deps_from(s, i + 1, cur.push(s[i]))
    }
}

/// The dependency targets named by the part of a header line after the colon.
pub open spec fn deps_of(s: Seq<char>) -> Seq<TargetV> {
    deps_from(s, 0, Seq::empty())
}

/// Whether a line continues a block: non-empty and indented.
pub open spec fn is_cont(line: Seq<char>) -> bool {
    line.len() > 0 && is_indent(line[0])
}

/// The would-be target token of a header line: what stands before the
/// separator colon, with surrounding whitespace removed.
pub open spec fn header_token(line: Seq<char>) -> Seq<char> {
    trim(line.subrange(0, header_sep(line)))
}

/// A header line holds a separator colon, and before it a single non-empty
/// token free of whitespace.
pub open spec fn is_header(line: Seq<char>) -> bool {
    &&& header_sep(line) < line.len()
    &&& header_token(line).len() > 0
    &&& forall|k: int| 0 <= k < header_token(line).len() ==> !is_ws(header_token(line)[k])
}

/// The rule a header line opens: its dependency list, and no commands yet.
pub open spec fn header_rule(line: Seq<char>) -> RuleV {
    RuleV {
        dependencies: deps_of(line.subrange(header_sep(line) + 1, line.len() as int)),
        commands: Seq::empty(),
    }
}

/// A finished block enters the store, replacing any earlier rule for the
/// same target.
pub open spec fn close_block(
    open: Option<(TargetV, RuleV)>,
    acc: Map<TargetV, RuleV>,
) -> Map<TargetV, RuleV> {
    match open {
        Some(p) => acc.insert(p.0, p.1),
        None => acc,
    }
}

/// A trimmed command line joins the open rule; one that trims to nothing is
/// dropped entirely.
pub open spec fn add_command(r: RuleV, line: Seq<char>) -> RuleV {
    if trim(line).len() > 0 {
        RuleV { dependencies: r.dependencies, commands: r.commands.push(trim(line)) }
    } else {
        r
    }
}

/// One line of the scan: an indented line extends the open block (or is
/// skipped if no block is open); anything else ends the open block, and a
/// header line opens a new one.
pub open spec fn line_step(
    line: Seq<char>,
    open: Option<(TargetV, RuleV)>,
    acc: Map<TargetV, RuleV>,
) -> (Option<(TargetV, RuleV)>, Map<TargetV, RuleV>) {
    if is_cont(line) {
        match open {
            Some(p) => (Some((p.0, add_command(p.1, line))), acc),
            None => (None, acc),
        }
    } else {
        let acc2 = close_block(open, acc);
        if is_header(line) {
            (Some((target_of(header_token(line)), header_rule(line))), acc2)
        } else {
            (None, acc2)
        }
    }
}

/// The line-by-line scan of the rule text from position `pos` on.
pub open spec fn parse_lines(
    s: Seq<char>,
    pos: int,
    open: Option<(TargetV, RuleV)>,
    acc: Map<TargetV, RuleV>,
) -> Map<TargetV, RuleV>
    decreases s.len() - pos,
        via parse_lines_dec
{
    if pos < 0 || pos >= s.len() {
        close_block(open, acc)
    } else {
        let j = first_nl(s, pos);
        let line = s.subrange(pos, j);
        let st = line_step(line, open, acc);
        let next = if j + 1 < s.len() {
            j + 1
        } else {
            s.len() as int
        };
        parse_lines(s, next, st.0, st.1)
    }
}

#[via_fn]
proof fn parse_lines_dec(
    s: Seq<char>,
    pos: int,
    open: Option<(TargetV, RuleV)>,
    acc: Map<TargetV, RuleV>,
) {
    if 0 <= pos < s.len() {
        lemma_first_nl_bounds(s, pos);
    }
}

/// What a rule file means: the mapping from each declared target to its last
/// declared rule.
pub open spec fn spec_parse(s: Seq<char>) -> Map<TargetV, RuleV> {
    parse_lines(s, 0, None, Map::empty())
}

/// The rule store: each target maps to its rule, the last one declared for
/// it in the file.  Entries are kept in declaration order; a later entry for
/// the same target shadows an earlier one.
#[derive(Debug)]
pub struct MkFile {
    rules: Vec<(Target, Rule)>,
}

/// The views of the store's entries.
pub open spec fn entry_views(s: Seq<(Target, Rule)>) -> Seq<(TargetV, RuleV)> {
    s.map_values(|p: (Target, Rule)| (p.0@, p.1@))
}

/// The mapping an entry sequence denotes: later entries win.
pub open spec fn rules_map(s: Seq<(TargetV, RuleV)>) -> Map<TargetV, RuleV>
    decreases s.len(),
{
    if s.len() == 0 {
        Map::empty()
    } else {
        rules_map(s.drop_last()).insert(s.last().0, s.last().1)
    }
}

impl View for MkFile {
    type V = Map<TargetV, RuleV>;

    closed spec fn view(&self) -> Map<TargetV, RuleV> {
        rules_map(entry_views(self.rules@))
    }
}

/// The last entry for `k`, scanning from the back.
pub open spec fn lookup(s: Seq<(TargetV, RuleV)>, k: TargetV) -> Option<RuleV>
    decreases s.len(),
{
    if s.len() == 0 {
        None
    } else if s.last().0 == k {
        Some(s.last().1)
    } else {
        lookup(s.drop_last(), k)
    }
}

pub proof fn lemma_lookup_rules_map(s: Seq<(TargetV, RuleV)>, k: TargetV)
    ensures
        match lookup(s, k) {
            Some(r) => rules_map(s).contains_key(k) && rules_map(s)[k] == r,
            None => !rules_map(s).contains_key(k),
        },
    decreases s.len(),
{
    if s.len() > 0 {
        lemma_lookup_rules_map(s.drop_last(), k);
    }
}

/// Parsing identical rule-file text twice yields structurally identical rule
/// stores: the store is a function of the text alone.
pub proof fn lemma_parse_deterministic(a: MkFile, b: MkFile, text: Seq<char>)
    requires
        a@ == spec_parse(text),
        b@ == spec_parse(text),
    ensures
        a@ == b@,
{
}

fn is_ws_char(c: char) -> (r: bool)
    ensures
        r == is_ws(c),
{
    c == ' ' || c == '\t' || c == '\r'
}

/// Scans to the line's end: the next newline, or the text's end.
fn find_nl(text: &str, pos: usize) -> (j: usize)
    requires
        pos <= text@.len(),
    ensures
        pos <= j <= text@.len(),
        j == first_nl(text@, pos as int),
{
    let n = text.unicode_len();
    let mut j = pos;
    while j < n && text.get_char(j) != '\n'
        invariant
            pos <= j <= n,
            n == text@.len(),
            first_nl(text@, pos as int) == first_nl(text@, j as int),
        decreases n - j,
    {
        j += 1;
    }
    j
}

/// Scans for the separator colon of a would-be header in `text[lo..hi]`:
/// the first colon after the leading run of non-whitespace, or the last
/// colon inside that run.  Yields `hi` when there is none.
fn find_sep(text: &str, lo: usize, hi: usize) -> (c: usize)
    requires
        lo <= hi <= text@.len(),
    ensures
        lo <= c <= hi,
        c - lo == header_sep(text@.subrange(lo as int, hi as int)),
{
    let ghost line = text@.subrange(lo as int, hi as int);
    // the end of the leading run of non-whitespace
    let mut w = lo;
    while w < hi && !is_ws_char(text.get_char(w))
        invariant
            lo <= w <= hi,
            hi <= text@.len(),
            line == text@.subrange(lo as int, hi as int),
            first_ws_idx(line, 0) == first_ws_idx(line, w - lo),
        decreases hi - w,
    {
        proof {
            assert(line[w - lo] == text@[w as int]);
        }
        w += 1;
    }
    proof {
        if w < hi {
            assert(line[w - lo] == text@[w as int]);
        }
        assert(first_ws_idx(line, 0) == w - lo);
    }
    // the first non-whitespace character after the run
    let mut a = w;
    while a < hi && is_ws_char(text.get_char(a))
        invariant
            w <= a <= hi,
            lo <= w,
            hi <= text@.len(),
            line == text@.subrange(lo as int, hi as int),
            first_non_ws(line, w - lo) == first_non_ws(line, a - lo),
        decreases hi - a,
    {
        proof {
            assert(line[a - lo] == text@[a as int]);
        }
        a += 1;
    }
    proof {
        if a < hi {
            assert(line[a - lo] == text@[a as int]);
        }
        assert(first_non_ws(line, w - lo) == a - lo);
    }
    if w > lo && a < hi && text.get_char(a) == ':' {
        proof {
            assert(line[a - lo] == text@[a as int]);
        }
        return a;
    }
    // no colon follows the run: the last colon inside it, if any
    let mut c = w;
    while c - lo > 1
        invariant
            lo <= c <= w <= hi,
            hi <= text@.len(),
            line == text@.subrange(lo as int, hi as int),
            last_colon_before(line, w - lo) == last_colon_before(line, c - lo),
            header_sep(line) == last_colon_before(line, w - lo),
        decreases c,
    {
        proof {
            assert(line[c - 1 - lo] == text@[c - 1]);
        }
        if text.get_char(c - 1) == ':' {
            return c - 1;
        }
        c -= 1;
    }
    proof {
        assert(last_colon_before(line, c - lo) == line.len());
    }
    hi
}

/// Bounds of the trimmed middle of `text[lo..hi]`: line whitespace stripped
/// from both ends.
fn trim_bounds(text: &str, lo: usize, hi: usize) -> (r: (usize, usize))
    requires
        lo <= hi <= text@.len(),
    ensures
        ({
            let line = text@.subrange(lo as int, hi as int);
            &&& lo <= r.0 <= hi
            &&& r.0 <= r.1 <= hi
            &&& r.0 < r.1 ==> trim(line) == text@.subrange(r.0 as int, r.1 as int)
            &&& r.0 >= r.1 ==> trim(line) == Seq::<char>::empty()
        }),
{
    let ghost line = text@.subrange(lo as int, hi as int);
    let mut a = lo;
    while a < hi && is_ws_char(text.get_char(a))
        invariant
            lo <= a <= hi,
            hi <= text@.len(),
            line == text@.subrange(lo as int, hi as int),
            first_non_ws(line, 0) == first_non_ws(line, a - lo),
        decreases hi - a,
    {
        proof {
            assert(line[a - lo] == text@[a as int]);
        }
        a += 1;
    }
    proof {
        if a < hi {
            assert(line[a - lo] == text@[a as int]);
        }
        assert(first_non_ws(line, 0) == a - lo);
    }
    let mut b = hi;
    while b > a && is_ws_char(text.get_char(b - 1))
        invariant
            a <= b <= hi,
            hi <= text@.len(),
            lo <= a <= hi,
            line == text@.subrange(lo as int, hi as int),
            first_non_ws(line, 0) == a - lo,
            trim_end_idx(line, b - lo) == trim_end_idx(line, line.len() as int),
        decreases b,
    {
        proof {
            assert(line[b - 1 - lo] == text@[b - 1]);
        }
        b -= 1;
    }
    proof {
        lemma_trim_end_le(line, line.len() as int);
        if b > a {
            // stopped at a non-whitespace character: the end of the trim
            assert(line[b - 1 - lo] == text@[b - 1]);
            assert(trim_end_idx(line, b - lo) == b - lo);
            assert(trim(line) =~= text@.subrange(a as int, b as int));
        } else {
            // b == a: nothing stands at or after a but whitespace
            if a < hi {
                // impossible: the character at a is not whitespace
                lemma_first_non_ws(line, 0);
                assert(!is_ws(line[a - lo]));
                lemma_trim_end_ge(line, a - lo, line.len() as int);
                lemma_trim_end_le(line, a - lo);
                assert(false);
            }
            assert(first_non_ws(line, 0) == line.len());
            assert(trim(line) =~= Seq::<char>::empty());
        }
    }
    (a, b)
}

/// Whether `text[lo..hi]` is free of line whitespace.
fn all_non_ws(text: &str, lo: usize, hi: usize) -> (r: bool)
    requires
        lo <= hi <= text@.len(),
    ensures
        r == forall|k: int| lo <= k < hi ==> !is_ws(text@[k]),
{
    let mut i = lo;
    while i < hi
        invariant
            lo <= i <= hi,
            hi <= text@.len(),
            forall|k: int| lo <= k < i ==> !is_ws(text@[k]),
        decreases hi - i,
    {
        if is_ws_char(text.get_char(i)) {
            return false;
        }
        i += 1;
    }
    true
}

/// Reads the whitespace-separated dependency tokens in `text[lo..hi]`.
fn parse_deps(text: &str, lo: usize, hi: usize) -> (r: Vec<Target>)
    requires
        lo <= hi <= text@.len(),
    ensures
        target_views(r@) == deps_of(text@.subrange(lo as int, hi as int)),
{
    let ghost line = text@.subrange(lo as int, hi as int);
    let mut deps: Vec<Target> = Vec::new();
    let mut ts = lo;
    let mut k = lo;
    proof {
        assert(line.subrange(0, 0) =~= Seq::<char>::empty());
        assert(target_views(deps@) =~= Seq::<TargetV>::empty());
    }
    while k < hi
        invariant
            lo <= ts <= k <= hi,
            hi <= text@.len(),
            line == text@.subrange(lo as int, hi as int),
            target_views(deps@) + deps_from(line, k - lo, line.subrange(ts - lo, k - lo)) =~= deps_of(
                line,
            ),
        decreases hi - k,
    {
        let ghost cur = line.subrange(ts - lo, k - lo);
        proof {
            assert(line[k - lo] == text@[k as int]);
        }
        let c = text.get_char(k);
        if is_ws_char(c) {
            if ts < k {
                let tok = text.substring_char(ts, k);
                proof {
                    assert(tok@ =~= cur);
                }
                let t = Target::parse(tok);
                deps.push(t);
                proof {
                    assert(target_views(deps@) =~= target_views(deps@.drop_last()).push(
                        deps@.last()@,
                    ));
                }
            }
            k += 1;
            ts = k;
            proof {
                assert(line.subrange(ts - lo, k - lo) =~= Seq::<char>::empty());
            }
        } else {
            k += 1;
            proof {
                assert(line.subrange(ts - lo, k - lo) =~= cur.push(line[k - 1 - lo]));
            }
        }
    }
    let ghost cur = line.subrange(ts - lo, k - lo);
    if ts < hi {
        let tok = text.substring_char(ts, hi);
        proof {
            assert(tok@ =~= cur);
        }
        let t = Target::parse(tok);
        deps.push(t);
        proof {
            assert(target_views(deps@) =~= target_views(deps@.drop_last()).push(deps@.last()@));
        }
    }
    proof {
        assert(target_views(deps@) =~= deps_of(line));
    }
    deps
}

/// A copy of a target vector, element for element.
fn clone_targets(v: &Vec<Target>) -> (r: Vec<Target>)
    ensures
        r@ == v@,
{
    let mut r: Vec<Target> = Vec::new();
    let mut i: usize = 0;
    while i < v.len()
        invariant
            i <= v.len(),
            r@ =~= v@.take(i as int),
        decreases v.len() - i,
    {
        r.push(v[i].clone());
        i += 1;
    }
    proof {
        assert(r@ =~= v@);
    }
    r
}

/// A copy of a string vector, element for element.
fn clone_strings(v: &Vec<String>) -> (r: Vec<String>)
    ensures
        r@ == v@,
{
    let mut r: Vec<String> = Vec::new();
    let mut i: usize = 0;
    while i < v.len()
        invariant
            i <= v.len(),
            r@ =~= v@.take(i as int),
        decreases v.len() - i,
    {
        r.push(v[i].clone());
        i += 1;
    }
    proof {
        assert(r@ =~= v@);
    }
    r
}

/// Moves the open block, if any, into the store.
fn close_exec(rules: &mut Vec<(Target, Rule)>, open: &mut Option<(Target, Rule)>)
    ensures
        rules_map(entry_views(final(rules)@)) == close_block(
            open_view(*old(open)),
            rules_map(entry_views(old(rules)@)),
        ),
        *final(open) is None,
{
    let mut taken: Option<(Target, Rule)> = None;
    core::mem::swap(open, &mut taken);
    match taken {
        Some(p) => {
            rules.push(p);
            proof {
                assert(entry_views(rules@).drop_last() =~= entry_views(old(rules)@));
                assert(entry_views(rules@).last() == (rules@.last().0@, rules@.last().1@));
            }
        },
        None => {},
    }
}

/// The view of a block in progress.
pub open spec fn open_view(o: Option<(Target, Rule)>) -> Option<(TargetV, RuleV)> {
    match o {
        Some(p) => Some((p.0@, p.1@)),
        None => None,
    }
}

/// Applies one line of the scan to the store and the open block.
fn line_step_exec(
    text: &str,
    lo: usize,
    hi: usize,
    rules: &mut Vec<(Target, Rule)>,
    open: &mut Option<(Target, Rule)>,
)
    requires
        lo <= hi <= text@.len(),
    ensures
        ({
            let st = line_step(
                text@.subrange(lo as int, hi as int),
                open_view(*old(open)),
                rules_map(entry_views(old(rules)@)),
            );
            &&& open_view(*final(open)) == st.0
            &&& rules_map(entry_views(final(rules)@)) == st.1
        }),
{
    let ghost line = text@.subrange(lo as int, hi as int);
    if hi > lo {
        let c0 = text.get_char(lo);
        if c0 == ' ' || c0 == '\t' {
            proof {
                assert(line[0] == text@[lo as int]);
                assert(is_cont(line));
            }
            match open {
                Some(p) => {
                    let ghost old_rule = p.1@;
                    let (a, b) = trim_bounds(text, lo, hi);
                    if a < b {
                        let cmd = text.substring_char(a, b).to_owned();
                        proof {
                            assert(cmd@ == trim(line));
                        }
                        p.1.commands.push(cmd);
                        proof {
                            assert(string_views(p.1.commands@) =~= string_views(
                                p.1.commands@.drop_last(),
                            ).push(p.1.commands@.last()@));
                            assert(p.1@ =~= add_command(old_rule, line));
                        }
                    } else {
                        proof {
                            assert(p.1@ =~= add_command(old_rule, line));
                        }
                    }
                },
                None => {},
            }
            return ;
        }
    }
    proof {
        if hi > lo {
            assert(line[0] == text@[lo as int]);
        }
        assert(!is_cont(line));
    }
    close_exec(rules, open);
    let c = find_sep(text, lo, hi);
    if c < hi {
        let (ta, tb) = trim_bounds(text, lo, c);
        proof {
            assert(line.subrange(0, c - lo) =~= text@.subrange(lo as int, c as int));
        }
        if ta < tb && all_non_ws(text, ta, tb) {
            proof {
                assert(header_token(line) == text@.subrange(ta as int, tb as int));
                assert(forall|k: int|
                    0 <= k < header_token(line).len() ==> header_token(line)[k] == text@[ta + k]);
                assert(is_header(line));
            }
            let tok = text.substring_char(ta, tb);
            proof {
                assert(tok@ == header_token(line));
            }
            let tgt = Target::parse(tok);
            let deps = parse_deps(text, c + 1, hi);
            proof {
                assert(line.subrange(c - lo + 1, line.len() as int) =~= text@.subrange(
                    c + 1,
                    hi as int,
                ));
            }
            let rule = Rule { dependencies: deps, commands: Vec::new() };
            proof {
                assert(rule@ =~= header_rule(line));
                assert(string_views(Seq::<String>::empty()) =~= Seq::<Seq<char>>::empty());
            }
            *open = Some((tgt, rule));
        } else {
            proof {
                if ta < tb {
                    // a whitespace character inside the token
                    let k = choose|k: int| ta <= k < tb && is_ws(text@[k]);
                    assert(header_token(line)[k - ta] == text@[k]);
                    assert(!is_header(line));
                } else {
                    assert(header_token(line).len() == 0);
                    assert(!is_header(line));
                }
            }
        }
    } else {
        proof {
            assert(header_sep(line) == line.len());
            assert(!is_header(line));
        }
    }
}

impl MkFile {
    /// Reads the rule text: a flat sequence of `target : deps` headers, each
    /// followed by indented command lines.  Text matching neither shape is
    /// skipped; a later rule for a target replaces an earlier one.
    pub fn parse(text: &str) -> (r: MkFile)
        ensures
            r@ == spec_parse(text@),
    {
        let n = text.unicode_len();
        let mut rules: Vec<(Target, Rule)> = Vec::new();
        let mut open: Option<(Target, Rule)> = None;
        let mut pos: usize = 0;
        while pos < n
            invariant
                n == text@.len(),
                pos <= n,
                parse_lines(
                    text@,
                    pos as int,
                    open_view(open),
                    rules_map(entry_views(rules@)),
                ) == spec_parse(text@),
            decreases n - pos,
        {
            let j = find_nl(text, pos);
            line_step_exec(text, pos, j, &mut rules, &mut open);
            pos = if j < n {
                j + 1
            } else {
                n
            };
        }
        let mut done: Option<(Target, Rule)> = open;
        close_exec(&mut rules, &mut done);
        MkFile { rules }
    }

    /// The rule declared for `target`, if the file holds one.
    fn find_rule(&self, target: &Target) -> (r: Option<&Rule>)
        ensures
            match r {
                Some(rl) => self@.contains_key(target@) && rl@ == self@[target@],
                None => !self@.contains_key(target@),
            },
    {
        let ghost es = entry_views(self.rules@);
        let mut i = self.rules.len();
        proof {
            assert(es.take(i as int) =~= es);
        }
        while i > 0
            invariant
                i <= self.rules.len(),
                es == entry_views(self.rules@),
                lookup(es, target@) == lookup(es.take(i as int), target@),
            decreases i,
        {
            i -= 1;
            proof {
                assert(es.take(i + 1).last() == es[i as int]);
                assert(es.take(i + 1).drop_last() =~= es.take(i as int));
            }
            let e = &self.rules[i];
            if e.0.same_as(target) {
                proof {
                    lemma_lookup_rules_map(es, target@);
                }
                return Some(&e.1);
            }
        }
        proof {
            assert(es.take(0).len() == 0);
            lemma_lookup_rules_map(es, target@);
        }
        None
    }

    /// Whether the file declares a rule for `target`.
    pub fn has_target(&self, target: &Target) -> (r: bool)
        ensures
            r == self@.contains_key(target@),
    {
        match self.find_rule(target) {
            Some(_) => true,
            None => false,
        }
    }

    /// The declared dependencies of `target`, in declaration order.
    pub fn dependencies(&self, target: &Target) -> (r: &Vec<Target>)
        requires
            self@.contains_key(target@),
        ensures
            target_views(r@) == self@[target@].dependencies,
    {
        match self.find_rule(target) {
            Some(rl) => &rl.dependencies,
            None => vstd::pervasive::unreached(),
        }
    }

    /// The commands of `target`'s rule, in declaration order.
    pub fn commands(&self, target: &Target) -> (r: &Vec<String>)
        requires
            self@.contains_key(target@),
        ensures
            string_views(r@) == self@[target@].commands,
    {
        match self.find_rule(target) {
            Some(rl) => &rl.commands,
            None => vstd::pervasive::unreached(),
        }
    }

    /// Copies of the dependency and command lists of `target`'s rule.
    pub fn rule_parts(&self, target: &Target) -> (r: (Vec<Target>, Vec<String>))
        requires
            self@.contains_key(target@),
        ensures
            target_views(r.0@) == self@[target@].dependencies,
            string_views(r.1@) == self@[target@].commands,
    {
        match self.find_rule(target) {
            Some(rl) => (clone_targets(&rl.dependencies), clone_strings(&rl.commands)),
            None => vstd::pervasive::unreached(),
        }
    }
}

} // verus!
