//! Test node data structures of the inventory, and `-k` / `-m` selection.

use vstd::prelude::*;
use vstd::string::*;
use crate::text::{
    rfind, split_by, ends_with, string_views, lowercase, contains, trim, trim_start, trim_end,
    find_first, starts_with, is_space, occurs_at, lemma_trim_len, lemma_find_from_bounds,
    lemma_rfind_from_bounds, chars_of, slice_chars, rfind_chars, string_of, split_chars,
    char_vec_views, str_eq, trim_chars, starts_with_chars, find_chars, to_lower, contains_chars,
    ends_with_chars,
};

verus! {

broadcast use vstd::seq_lib::group_seq_properties;

/// Unique identifier for a test node (pytest node ID format), for example
/// `test_module.py::TestClass::test_method` or `test_module.py::test_fn[param1]`.
pub type TestNodeId = String;

/// The kind of test node.
#[derive(Debug, Clone, Copy, PartialEq, Eq, Structural)]
pub enum TestNodeKind {
    /// A test function at module level.
    Function,
    /// A test method within a class.
    Method,
    /// A test class (container for methods).
    Class,
    /// A test module (container for functions/classes).
    Module,
}

impl Default for TestNodeKind {
    fn default() -> (r: Self)
        ensures
            r == TestNodeKind::Function,
    {
        TestNodeKind::Function
    }
}

/// A single test node with metadata.
#[derive(Debug, Clone)]
pub struct TestNode {
    /// The unique node ID (pytest format).
    pub node_id: TestNodeId,
    /// The kind of node.
    pub kind: TestNodeKind,
    /// File path relative to the repo root.
    pub file_path: String,
    /// Line number where the test is defined (1-indexed).
    pub lineno: Option<u32>,
    /// The test function/method name.
    pub name: String,
    /// Parent class name (if method).
    pub class_name: Option<String>,
    /// Markers attached to this test (e.g., "slow", "skip", "xfail").
    pub markers: Vec<String>,
    /// Keywords for -k filtering (includes name, class, markers, etc.).
    pub keywords: Vec<String>,
    /// Parameter IDs if this is a parametrized test.
    pub parameters: Option<String>,
    /// Historical average duration in milliseconds.
    pub avg_duration_ms: Option<u64>,
    /// Number of times this test has been run.
    pub run_count: u32,
    /// Number of times this test has failed.
    pub fail_count: u32,
    /// Whether this test is currently marked as expected to fail.
    pub xfail: bool,
    /// Whether this test is currently skipped.
    pub skip: bool,
}

/// The separator of node id segments.
pub open spec fn colons() -> Seq<char> {
    seq![':', ':']
}

/// A node id without its parameter part: everything before the last `[`.
pub open spec fn base_of(id: Seq<char>) -> Seq<char> {
    match rfind(id, seq!['[']) {
        Some(k) => id.subrange(0, k),
        None => id,
    }
}

/// The test name: the last `::` segment of the base id.
pub open spec fn name_of(id: Seq<char>) -> Seq<char> {
    let b = base_of(id);
    match rfind(b, colons()) {
        Some(k) => b.subrange(k + 2, b.len() as int),
        None => b,
    }
}

/// The class name: the second to last `::` segment when there are three or more.
pub open spec fn class_of(id: Seq<char>) -> Option<Seq<char>> {
    let parts = split_by(base_of(id), colons());
    if parts.len() >= 3 {
        Some(parts[parts.len() - 2])
    } else {
        None
    }
}

/// The optional string's characters.
pub open spec fn opt_view(o: Option<String>) -> Option<Seq<char>> {
    match o {
        Some(s) => Some(s@),
        None => None,
    }
}

/// The file name of a path: what follows the last `/`.
pub open spec fn file_name_of(path: Seq<char>) -> Seq<char> {
    match rfind(path, seq!['/']) {
        Some(k) => path.subrange(k + 1, path.len() as int),
        None => path,
    }
}

/// The module name of a path to a `.py` file.
pub open spec fn module_stem(path: Seq<char>) -> Option<Seq<char>> {
    let f = file_name_of(path);
    if ends_with(f, seq!['.', 'p', 'y']) {
        Some(f.subrange(0, f.len() - 3))
    } else {
        None
    }
}

/// An optional item as a sequence of zero or one items.
pub open spec fn opt_seq(o: Option<Seq<char>>) -> Seq<Seq<char>> {
    match o {
        Some(x) => seq![x],
        None => Seq::empty(),
    }
}

/// The keywords of a node: its name, class, module, markers and parameters.
pub open spec fn keywords_for(n: TestNode) -> Seq<Seq<char>> {
    seq![n.name@] + opt_seq(opt_view(n.class_name)) + opt_seq(module_stem(n.file_path@))
        + string_views(n.markers@) + opt_seq(opt_view(n.parameters))
}

/// Marker names that set the skip flag.
pub open spec fn is_skip_marker(m: Seq<char>) -> bool {
    m == seq!['s', 'k', 'i', 'p'] || m == seq!['s', 'k', 'i', 'p', 'i', 'f']
}

/// The marker name that sets the expected-failure flag.
pub open spec fn is_xfail_marker(m: Seq<char>) -> bool {
    m == seq!['x', 'f', 'a', 'i', 'l']
}

/// The keyword `not ` that negates an expression.
pub open spec fn not_prefix() -> Seq<char> {
    seq!['n', 'o', 't', ' ']
}

/// The conjunction ` and `.
pub open spec fn and_sep() -> Seq<char> {
    seq![' ', 'a', 'n', 'd', ' ']
}

/// The disjunction ` or `.
pub open spec fn or_sep() -> Seq<char> {
    seq![' ', 'o', 'r', ' ']
}

/// A plain keyword matches when its lower-cased form occurs in a lower-cased
/// keyword of the node or in its lower-cased node id.
pub open spec fn keyword_leaf(keywords: Seq<Seq<char>>, id: Seq<char>, t: Seq<char>) -> bool {
    (exists|i: int|
        0 <= i < keywords.len() && contains(lowercase(#[trigger] keywords[i]), lowercase(t)))
        || contains(lowercase(id), lowercase(t))
}

/// A plain marker matches when the node has exactly that marker.
pub open spec fn marker_leaf(markers: Seq<Seq<char>>, t: Seq<char>) -> bool {
    markers.contains(t)
}

/// Evaluation of a selection expression: after trimming, a leading `not `
/// negates the rest; otherwise the first ` and ` splits it into a conjunction,
/// else the first ` or ` into a disjunction; anything else is a plain name
/// tested by `leaf`.
pub open spec fn select_expr(e: Seq<char>, leaf: spec_fn(Seq<char>) -> bool) -> bool
    decreases e.len(),
{
    let t = trim(e);
    proof {
        lemma_trim_len(e);
        lemma_find_from_bounds(t, and_sep(), 0);
        lemma_find_from_bounds(t, or_sep(), 0);
    }
    if starts_with(t, not_prefix()) {
        !select_expr(t.subrange(4, t.len() as int), leaf)
    } else {
        match find_first(t, and_sep()) {
            Some(i) => select_expr(t.subrange(0, i), leaf) && select_expr(
                t.subrange(i + 5, t.len() as int),
                leaf,
            ),
            None => match find_first(t, or_sep()) {
                Some(i) => select_expr(t.subrange(0, i), leaf) || select_expr(
                    t.subrange(i + 4, t.len() as int),
                    leaf,
                ),
                None => leaf(t),
            },
        }
    }
}

/// The node matches the keyword expression.
pub open spec fn keyword_match(n: TestNode, e: Seq<char>) -> bool {
    select_expr(e, |t: Seq<char>| keyword_leaf(string_views(n.keywords@), n.node_id@, t))
}

/// The node matches the marker expression.
pub open spec fn marker_match(n: TestNode, e: Seq<char>) -> bool {
    select_expr(e, |t: Seq<char>| marker_leaf(string_views(n.markers@), t))
}

/// A negated expression matches exactly when the expression does not, for
/// every expression that holds a character other than white space.
pub proof fn lemma_not_negates(e: Seq<char>, leaf: spec_fn(Seq<char>) -> bool)
    requires
        exists|i: int| 0 <= i < e.len() && !is_space(#[trigger] e[i]),
    ensures
        select_expr(not_prefix() + e, leaf) == !select_expr(e, leaf),
{
    let ne = not_prefix() + e;
    let t = trim(ne);
    assert(ne[0] == 'n');
    assert(trim_start(ne) == ne);
    lemma_trim_end_keeps_prefix(e);
    assert(t == not_prefix() + trim_end(e));
    assert(starts_with(t, not_prefix())) by {
        assert(t.subrange(0, 4) =~= not_prefix());
    }
    assert(t.subrange(4, t.len() as int) =~= trim_end(e));
    assert(select_expr(ne, leaf) == !select_expr(trim_end(e), leaf));
    lemma_trim_idempotent_start(e);
    assert(select_expr(trim_end(e), leaf) == select_expr(e, leaf));
}

/// Trimming the end of `not ` followed by `e` only trims `e`, when `e` holds
/// a character other than white space.
proof fn lemma_trim_end_keeps_prefix(e: Seq<char>)
    requires
        exists|i: int| 0 <= i < e.len() && !is_space(#[trigger] e[i]),
    ensures
        trim_end(not_prefix() + e) == not_prefix() + trim_end(e),
    decreases e.len(),
{
    let p = not_prefix();
    if is_space(e.last()) {
        let i = choose|i: int| 0 <= i < e.len() && !is_space(#[trigger] e[i]);
        assert(i < e.len() - 1);
        assert(e.drop_last()[i] == e[i]);
        assert((p + e).drop_last() =~= p + e.drop_last());
        lemma_trim_end_keeps_prefix(e.drop_last());
    }
}

/// Trimming the end first does not change what a full trim gives.
proof fn lemma_trim_idempotent_start(e: Seq<char>)
    ensures
        trim(trim_end(e)) == trim(e),
{
    lemma_trim_start_end_commute(e);
    lemma_trim_end_idempotent(trim_start(e));
}

proof fn lemma_trim_end_idempotent(s: Seq<char>)
    ensures
        trim_end(trim_end(s)) == trim_end(s),
    decreases s.len(),
{
    if s.len() > 0 && is_space(s.last()) {
        lemma_trim_end_idempotent(s.drop_last());
    }
}

proof fn lemma_trim_start_end_commute(s: Seq<char>)
    ensures
        trim_start(trim_end(s)) == trim_end(trim_start(s)),
    decreases s.len(),
{
    if s.len() > 0 && is_space(s.last()) {
        lemma_trim_start_end_commute(s.drop_last());
        if s.len() > 1 && is_space(s[0]) {
            assert(s.drop_last().drop_first() =~= s.drop_first().drop_last());
            lemma_trim_start_end_commute(s.drop_first());
            lemma_trim_start_end_commute(s.drop_first().drop_last());
        } else if s.len() == 1 {
            assert(s.drop_last() =~= Seq::<char>::empty());
            assert(s.drop_first() =~= Seq::<char>::empty());
        } else {
            assert(s.drop_last()[0] == s[0]);
        }
    } else if s.len() > 0 && is_space(s[0]) {
        lemma_trim_start_end_commute(s.drop_first());
        assert(s.drop_first().last() == s.last());
        if s.drop_first().len() > 0 {
        }
    } else {
    }
}

impl TestNode {
    /// Create a new test node with minimal information.
    pub fn new(node_id: &str, file_path: &str) -> (r: TestNode)
        ensures
            r.node_id@ == node_id@,
            r.file_path@ == file_path@,
            r.name@ == name_of(node_id@),
            opt_view(r.class_name) == class_of(node_id@),
            r.kind == (if class_of(node_id@) is Some {
                TestNodeKind::Method
            } else {
                TestNodeKind::Function
            }),
            r.lineno is None,
            r.markers@.len() == 0,
            r.keywords@.len() == 0,
            r.parameters is None,
            r.avg_duration_ms is None,
            r.run_count == 0,
            r.fail_count == 0,
            !r.xfail,
            !r.skip,
    {
        let name = Self::extract_name(node_id);
        let class_name = Self::extract_class(node_id);
        let kind = if class_name.is_some() {
            TestNodeKind::Method
        } else {
            TestNodeKind::Function
        };
        TestNode {
            node_id: String::from_str(node_id),
            kind,
            file_path: String::from_str(file_path),
            lineno: None,
            name,
            class_name,
            markers: Vec::new(),
            keywords: Vec::new(),
            parameters: None,
            avg_duration_ms: None,
            run_count: 0,
            fail_count: 0,
            xfail: false,
            skip: false,
        }
    }

    /// The end of the base id (before the last `[`).
    fn base_end(id: &Vec<char>) -> (e: usize)
        ensures
            e <= id@.len(),
            id@.subrange(0, e as int) == base_of(id@),
    {
        let bracket = ['['];
        assert(bracket@ =~= seq!['[']);
        match rfind_chars(id, &bracket) {
            Some(k) => {
                proof {
                    lemma_rfind_from_bounds(id@, seq!['['], id@.len() - 1);
                }
                k
            },
            None => {
                assert(id@.subrange(0, id@.len() as int) =~= id@);
                id.len()
            },
        }
    }

    /// Extract the test name from a node ID.
    fn extract_name(node_id: &str) -> (r: String)
        ensures
            r@ == name_of(node_id@),
    {
        let id = chars_of(node_id);
        let e = Self::base_end(&id);
        let base = slice_chars(&id, 0, e);
        let sep = [':', ':'];
        assert(sep@ =~= colons());
        match rfind_chars(&base, &sep) {
            Some(k) => {
                proof {
                    lemma_rfind_from_bounds(base@, colons(), base@.len() - 2);
                }
                string_of(&base, k + 2, base.len())
            },
            None => {
                assert(base@.subrange(0, base@.len() as int) =~= base@);
                string_of(&base, 0, base.len())
            },
        }
    }

    /// Extract the class name from a node ID if present.
    fn extract_class(node_id: &str) -> (r: Option<String>)
        ensures
            opt_view(r) == class_of(node_id@),
    {
        let id = chars_of(node_id);
        let e = Self::base_end(&id);
        let base = slice_chars(&id, 0, e);
        let sep = [':', ':'];
        assert(sep@ =~= colons());
        let parts = split_chars(&base, &sep);
        let n = parts.len();
        if n >= 3 {
            let p = &parts[n - 2];
            assert(char_vec_views(parts@)[n - 2] == p@);
            Some(string_of(p, 0, p.len()))
        } else {
            None
        }
    }

    /// The markers of this node contain `marker`.
    pub fn has_marker(&self, marker: &str) -> (r: bool)
        ensures
            r == string_views(self.markers@).contains(marker@),
    {
        let m = String::from_str(marker);
        let mut i: usize = 0;
        while i < self.markers.len()
            invariant
                i <= self.markers@.len(),
                m@ == marker@,
                forall|j: int| 0 <= j < i ==> #[trigger] self.markers@[j]@ != marker@,
            decreases self.markers@.len() - i,
        {
            if self.markers[i] == m {
                assert(string_views(self.markers@)[i as int] == marker@);
                return true;
            }
            i = i + 1;
        }
        assert(!string_views(self.markers@).contains(marker@)) by {
            if string_views(self.markers@).contains(marker@) {
                let j = choose|j: int|
                    0 <= j < string_views(self.markers@).len() && string_views(self.markers@)[j]
                        == marker@;
                assert(self.markers@[j]@ == marker@);
            }
        }
        false
    }

    /// Add a marker to this test; `skip`/`skipif` set the skip flag and
    /// `xfail` the expected-failure flag. A marker already present changes nothing.
    pub fn add_marker(&mut self, marker: &str)
        ensures
            string_views(old(self).markers@).contains(marker@) ==> *final(self) == *old(self),
            !string_views(old(self).markers@).contains(marker@) ==> {
                &&& string_views(final(self).markers@) == string_views(old(self).markers@).push(
                    marker@,
                )
                &&& final(self).skip == (old(self).skip || is_skip_marker(marker@))
                &&& final(self).xfail == (old(self).xfail || is_xfail_marker(marker@))
                &&& final(self).node_id == old(self).node_id
                &&& final(self).kind == old(self).kind
                &&& final(self).file_path == old(self).file_path
                &&& final(self).lineno == old(self).lineno
                &&& final(self).name == old(self).name
                &&& final(self).class_name == old(self).class_name
                &&& final(self).keywords == old(self).keywords
                &&& final(self).parameters == old(self).parameters
                &&& final(self).avg_duration_ms == old(self).avg_duration_ms
                &&& final(self).run_count == old(self).run_count
                &&& final(self).fail_count == old(self).fail_count
            },
    {
        if !self.has_marker(marker) {
            proof {
                reveal_strlit("skip");
                reveal_strlit("skipif");
                reveal_strlit("xfail");
                assert("skip"@ =~= seq!['s', 'k', 'i', 'p']);
                assert("skipif"@ =~= seq!['s', 'k', 'i', 'p', 'i', 'f']);
                assert("xfail"@ =~= seq!['x', 'f', 'a', 'i', 'l']);
            }
            if str_eq(marker, "skip") || str_eq(marker, "skipif") {
                self.skip = true;
            } else if str_eq(marker, "xfail") {
                self.xfail = true;
            }
            let ghost before = self.markers@;
            self.markers.push(String::from_str(marker));
            assert(string_views(self.markers@) =~= string_views(before).push(marker@));
        }
    }

    /// Build the keywords list for -k filtering.
    pub fn build_keywords(&mut self)
        ensures
            string_views(final(self).keywords@) == keywords_for(*old(self)),
            final(self).node_id == old(self).node_id,
            final(self).kind == old(self).kind,
            final(self).file_path == old(self).file_path,
            final(self).lineno == old(self).lineno,
            final(self).name == old(self).name,
            final(self).class_name == old(self).class_name,
            final(self).markers == old(self).markers,
            final(self).parameters == old(self).parameters,
            final(self).avg_duration_ms == old(self).avg_duration_ms,
            final(self).run_count == old(self).run_count,
            final(self).fail_count == old(self).fail_count,
            final(self).xfail == old(self).xfail,
            final(self).skip == old(self).skip,
    {
        let mut kws: Vec<String> = Vec::new();
        kws.push(self.name.clone());
        let ghost mut expect: Seq<Seq<char>> = seq![self.name@];
        assert(string_views(kws@) =~= expect);
        match &self.class_name {
            Some(c) => {
                kws.push(c.clone());
                proof {
                    expect = expect.push(c@);
                }
            },
            None => {},
        }
        assert(expect =~= seq![self.name@] + opt_seq(opt_view(self.class_name)));
        assert(string_views(kws@) =~= expect);
        match Self::module_stem_of(&self.file_path) {
            Some(stem) => {
                proof {
                    expect = expect.push(stem@);
                }
                kws.push(stem);
            },
            None => {},
        }
        assert(string_views(kws@) =~= expect);
        let mut i: usize = 0;
        let ghost base = expect;
        while i < self.markers.len()
            invariant
                i <= self.markers@.len(),
                string_views(kws@) == base + string_views(self.markers@).take(i as int),
            decreases self.markers@.len() - i,
        {
            let ghost before = kws@;
            kws.push(self.markers[i].clone());
            assert(string_views(kws@) =~= string_views(before).push(self.markers@[i as int]@));
            assert(string_views(self.markers@).take(i + 1) =~= string_views(self.markers@).take(
                i as int,
            ).push(self.markers@[i as int]@));
            i = i + 1;
        }
        assert(string_views(self.markers@).take(i as int) =~= string_views(self.markers@));
        match &self.parameters {
            Some(p) => {
                let ghost before = kws@;
                kws.push(p.clone());
                assert(string_views(kws@) =~= string_views(before).push(p@));
            },
            None => {},
        }
        assert(string_views(kws@) =~= keywords_for(*self));
        self.keywords = kws;
    }

    /// The module name of a `.py` file path.
    fn module_stem_of(path: &String) -> (r: Option<String>)
        ensures
            opt_view(r) == module_stem(path@),
    {
        let p = chars_of(path.as_str());
        let n = p.len();
        let slash = ['/'];
        assert(slash@ =~= seq!['/']);
        let start = match rfind_chars(&p, &slash) {
            Some(k) => {
                proof {
                    lemma_rfind_from_bounds(p@, seq!['/'], p@.len() - 1);
                }
                assert(k < n);
                k + 1
            },
            None => 0,
        };
        let f = slice_chars(&p, start, p.len());
        assert(start == 0 ==> f@ =~= p@);
        assert(f@ == file_name_of(path@));
        let ext = ['.', 'p', 'y'];
        assert(ext@ =~= seq!['.', 'p', 'y']);
        if ends_with_chars(&f, &ext) {
            Some(string_of(&f, 0, f.len() - 3))
        } else {
            None
        }
    }

    /// Evaluates a selection expression over this node, by keyword or by marker.
    fn eval_expr(&self, e: Vec<char>, by_marker: bool) -> (r: bool)
        ensures
            by_marker ==> r == select_expr(
                e@,
                |t: Seq<char>| marker_leaf(string_views(self.markers@), t),
            ),
            !by_marker ==> r == select_expr(
                e@,
                |t: Seq<char>| keyword_leaf(string_views(self.keywords@), self.node_id@, t),
            ),
        decreases e@.len(),
    {
        let t = trim_chars(&e);
        proof {
            lemma_trim_len(e@);
            lemma_find_from_bounds(t@, and_sep(), 0);
            lemma_find_from_bounds(t@, or_sep(), 0);
        }
        let not_p = ['n', 'o', 't', ' '];
        let and_p = [' ', 'a', 'n', 'd', ' '];
        let or_p = [' ', 'o', 'r', ' '];
        assert(not_p@ =~= not_prefix());
        assert(and_p@ =~= and_sep());
        assert(or_p@ =~= or_sep());
        if starts_with_chars(&t, &not_p) {
            let rest = slice_chars(&t, 4, t.len());
            return !self.eval_expr(rest, by_marker);
        }
        match find_chars(&t, &and_p) {
            Some(i) => {
                assert(occurs_at(t@, and_sep(), i as int));
                let n = t.len();
                assert(i + 5 <= n);
                let left = slice_chars(&t, 0, i);
                let right = slice_chars(&t, i + 5, t.len());
                self.eval_expr(left, by_marker) && self.eval_expr(right, by_marker)
            },
            None => match find_chars(&t, &or_p) {
                Some(i) => {
                    assert(occurs_at(t@, or_sep(), i as int));
                    let n = t.len();
                    assert(i + 4 <= n);
                    let left = slice_chars(&t, 0, i);
                    let right = slice_chars(&t, i + 4, t.len());
                    self.eval_expr(left, by_marker) || self.eval_expr(right, by_marker)
                },
                None => {
                    let s = string_of(&t, 0, t.len());
                    assert(t@.subrange(0, t@.len() as int) =~= t@);
                    if by_marker {
                        self.has_marker(s.as_str())
                    } else {
                        self.keyword_leaf_exec(s.as_str())
                    }
                },
            },
        }
    }

    /// A plain keyword occurs, ignoring case, in a keyword or in the node id.
    fn keyword_leaf_exec(&self, t: &str) -> (r: bool)
        ensures
            r == keyword_leaf(string_views(self.keywords@), self.node_id@, t@),
    {
        let lower = to_lower(t);
        let pat = chars_of(lower.as_str());
        let mut i: usize = 0;
        while i < self.keywords.len()
            invariant
                i <= self.keywords@.len(),
                pat@ == lowercase(t@),
                forall|j: int|
                    0 <= j < i ==> !contains(
                        lowercase(#[trigger] string_views(self.keywords@)[j]),
                        lowercase(t@),
                    ),
            decreases self.keywords@.len() - i,
        {
            let k = to_lower(self.keywords[i].as_str());
            let kc = chars_of(k.as_str());
            assert(string_views(self.keywords@)[i as int] == self.keywords@[i as int]@);
            if contains_chars(&kc, &pat) {
                return true;
            }
            i = i + 1;
        }
        let id = to_lower(self.node_id.as_str());
        let idc = chars_of(id.as_str());
        contains_chars(&idc, &pat)
    }

    /// Check if this test matches a keyword expression: plain keywords match
    /// as case-insensitive substrings of a keyword or of the node id, and
    /// `not`, `and`, `or` combine them.
    pub fn matches_keyword(&self, expr: &str) -> (r: bool)
        ensures
            r == keyword_match(*self, expr@),
    {
        let e = chars_of(expr);
        self.eval_expr(e, false)
    }

    /// Check if this test matches a marker expression: plain markers match
    /// exactly, and `not`, `and`, `or` combine them.
    pub fn matches_marker(&self, expr: &str) -> (r: bool)
        ensures
            r == marker_match(*self, expr@),
    {
        let e = chars_of(expr);
        self.eval_expr(e, true)
    }

    /// Update duration statistics after a test run: the average becomes the
    /// running mean over all runs, rounded down.
    pub fn record_duration(&mut self, duration_ms: u64)
        requires
            old(self).run_count < u32::MAX,
            (match old(self).avg_duration_ms {
                Some(a) => a as int,
                None => 0int,
            }) * old(self).run_count + duration_ms <= u64::MAX,
        ensures
            final(self).run_count == old(self).run_count + 1,
            final(self).avg_duration_ms == Some(
                (((match old(self).avg_duration_ms {
                    Some(a) => a as int,
                    None => 0int,
                }) * old(self).run_count + duration_ms) / (old(self).run_count + 1)) as u64,
            ),
            *final(self) == (TestNode {
                run_count: final(self).run_count,
                avg_duration_ms: final(self).avg_duration_ms,
                ..*old(self)
            }),
    {
        self.run_count = self.run_count + 1;
        let current_avg: u64 = match self.avg_duration_ms {
            Some(a) => a,
            None => 0,
        };
        let prev_runs = (self.run_count - 1) as u64;
        proof {
            assert(current_avg * prev_runs <= u64::MAX) by (nonlinear_arith)
                requires
                    current_avg * prev_runs + duration_ms <= u64::MAX,
                    duration_ms >= 0,
            ;
        }
        let total = current_avg * prev_runs + duration_ms;
        let avg = total / (self.run_count as u64);
        self.avg_duration_ms = Some(avg);
    }

    /// Record a test failure.
    pub fn record_failure(&mut self)
        requires
            old(self).fail_count < u32::MAX,
        ensures
            *final(self) == (TestNode { fail_count: (old(self).fail_count + 1) as u32, ..*old(self) }),
    {
        self.fail_count = self.fail_count + 1;
    }
}

} // verus!
