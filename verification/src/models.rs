//! Data models of the daemon: outcomes, stability states, test records and
//! configuration values.

use vstd::prelude::*;
use vstd::string::*;
use crate::protocol::TestNodeInfo;
use crate::text::{str_eq, to_lower, lowercase, ends_with, ends_with_chars, chars_of, copy_strings, copy_opt_string, string_views};

verus! {

/// Test outcome types.
#[derive(Debug, Clone, Copy, PartialEq, Eq, Structural)]
pub enum TestOutcome {
    Passed,
    Failed,
    Skipped,
    Error,
    Xfail,
    Xpass,
}

/// The lower-case name of an outcome.
pub open spec fn outcome_name(o: TestOutcome) -> Seq<char> {
    match o {
        TestOutcome::Passed => seq!['p', 'a', 's', 's', 'e', 'd'],
        TestOutcome::Failed => seq!['f', 'a', 'i', 'l', 'e', 'd'],
        TestOutcome::Skipped => seq!['s', 'k', 'i', 'p', 'p', 'e', 'd'],
        TestOutcome::Error => seq!['e', 'r', 'r', 'o', 'r'],
        TestOutcome::Xfail => seq!['x', 'f', 'a', 'i', 'l'],
        TestOutcome::Xpass => seq!['x', 'p', 'a', 's', 's'],
    }
}

/// The outcome a name stands for, if it is one of the six names.
pub open spec fn outcome_named(s: Seq<char>) -> Option<TestOutcome> {
    if s == outcome_name(TestOutcome::Passed) {
        Some(TestOutcome::Passed)
    } else if s == outcome_name(TestOutcome::Failed) {
        Some(TestOutcome::Failed)
    } else if s == outcome_name(TestOutcome::Skipped) {
        Some(TestOutcome::Skipped)
    } else if s == outcome_name(TestOutcome::Error) {
        Some(TestOutcome::Error)
    } else if s == outcome_name(TestOutcome::Xfail) {
        Some(TestOutcome::Xfail)
    } else if s == outcome_name(TestOutcome::Xpass) {
        Some(TestOutcome::Xpass)
    } else {
        None
    }
}

/// The outcome for a name; names that are not outcome names mean an error.
pub open spec fn outcome_from_name(s: Seq<char>) -> TestOutcome {
    match outcome_named(s) {
        Some(o) => o,
        None => TestOutcome::Error,
    }
}

/// Failures and errors count as failing runs.
pub open spec fn is_failing(o: TestOutcome) -> bool {
    o == TestOutcome::Failed || o == TestOutcome::Error
}

/// Every outcome name reads back as its outcome.
pub proof fn lemma_outcome_name_roundtrip(o: TestOutcome)
    ensures
        outcome_named(outcome_name(o)) == Some(o),
        outcome_from_name(outcome_name(o)) == o,
{
    reveal_with_fuel(outcome_named, 1);
}

impl TestOutcome {
    /// The lower-case name of this outcome.
    pub fn name(&self) -> (r: String)
        ensures
            r@ == outcome_name(*self),
    {
        match self {
            TestOutcome::Passed => {
                let r = String::from_str("passed");
                proof {
                    reveal_strlit("passed");
                    assert("passed"@ =~= outcome_name(*self));
                }
                r
            },
            TestOutcome::Failed => {
                let r = String::from_str("failed");
                proof {
                    reveal_strlit("failed");
                    assert("failed"@ =~= outcome_name(*self));
                }
                r
            },
            TestOutcome::Skipped => {
                let r = String::from_str("skipped");
                proof {
                    reveal_strlit("skipped");
                    assert("skipped"@ =~= outcome_name(*self));
                }
                r
            },
            TestOutcome::Error => {
                let r = String::from_str("error");
                proof {
                    reveal_strlit("error");
                    assert("error"@ =~= outcome_name(*self));
                }
                r
            },
            TestOutcome::Xfail => {
                let r = String::from_str("xfail");
                proof {
                    reveal_strlit("xfail");
                    assert("xfail"@ =~= outcome_name(*self));
                }
                r
            },
            TestOutcome::Xpass => {
                let r = String::from_str("xpass");
                proof {
                    reveal_strlit("xpass");
                    assert("xpass"@ =~= outcome_name(*self));
                }
                r
            },
        }
    }

    /// The outcome a name stands for, if any.
    pub fn named(s: &str) -> (r: Option<TestOutcome>)
        ensures
            r == outcome_named(s@),
    {
        proof {
            reveal_strlit("passed");
            reveal_strlit("failed");
            reveal_strlit("skipped");
            reveal_strlit("error");
            reveal_strlit("xfail");
            reveal_strlit("xpass");
            assert("passed"@ =~= outcome_name(TestOutcome::Passed));
            assert("failed"@ =~= outcome_name(TestOutcome::Failed));
            assert("skipped"@ =~= outcome_name(TestOutcome::Skipped));
            assert("error"@ =~= outcome_name(TestOutcome::Error));
            assert("xfail"@ =~= outcome_name(TestOutcome::Xfail));
            assert("xpass"@ =~= outcome_name(TestOutcome::Xpass));
        }
        if str_eq(s, "passed") {
            Some(TestOutcome::Passed)
        } else if str_eq(s, "failed") {
            Some(TestOutcome::Failed)
        } else if str_eq(s, "skipped") {
            Some(TestOutcome::Skipped)
        } else if str_eq(s, "error") {
            Some(TestOutcome::Error)
        } else if str_eq(s, "xfail") {
            Some(TestOutcome::Xfail)
        } else if str_eq(s, "xpass") {
            Some(TestOutcome::Xpass)
        } else {
            None
        }
    }

    /// The outcome for a name; unknown names mean an error.
    pub fn parse(s: &str) -> (r: TestOutcome)
        ensures
            r == outcome_from_name(s@),
    {
        match TestOutcome::named(s) {
            Some(o) => o,
            None => TestOutcome::Error,
        }
    }

    /// Failures and errors.
    pub fn is_failing(&self) -> (r: bool)
        ensures
            r == is_failing(*self),
    {
        match self {
            TestOutcome::Failed | TestOutcome::Error => true,
            _ => false,
        }
    }
}

impl<'a> From<&'a str> for TestOutcome {
    fn from(s: &'a str) -> (r: TestOutcome) {
        TestOutcome::parse(s)
    }
}

impl<'a> vstd::std_specs::convert::FromSpecImpl<&'a str> for TestOutcome {
    open spec fn obeys_from_spec() -> bool {
        true
    }

    open spec fn from_spec(v: &'a str) -> TestOutcome {
        outcome_from_name(v@)
    }
}

impl From<TestOutcome> for String {
    fn from(o: TestOutcome) -> (r: String) {
        o.name()
    }
}

/// The conversion gives `o.name()`, whose contract states the text; a spec
/// value of type `String` cannot be built from its characters, so no
/// `from_spec` equality is claimed here.
impl vstd::std_specs::convert::FromSpecImpl<TestOutcome> for String {
    open spec fn obeys_from_spec() -> bool {
        false
    }

    open spec fn from_spec(v: TestOutcome) -> String {
        choose|s: String| s@ == outcome_name(v)
    }
}

/// Stability states for a test based on its recent outcome history.
#[derive(Debug, Clone, PartialEq, Eq, Default, Structural)]
pub enum StabilityState {
    /// Not enough data to determine stability.
    #[default]
    Unknown,
    /// Consistently passing.
    Stable { consecutive_passes: u32 },
    /// Consistently failing.
    Unstable { consecutive_failures: u32 },
    /// Outcomes are alternating (at least one flip detected).
    Flaky { streak_count: u32 },
    /// Confirmed flaky after repeated alternations.
    ConfirmedFlaky,
}

impl StabilityState {
    /// Flaky with at least two flips, or confirmed flaky.
    pub open spec fn spec_is_flaky(&self) -> bool {
        match self {
            StabilityState::Flaky { streak_count } => *streak_count >= 2,
            StabilityState::ConfirmedFlaky => true,
            _ => false,
        }
    }

    /// Returns true if the test is considered flaky.
    ///
    /// Requires at least 2 flips (streak_count >= 2) in the Flaky state,
    /// or being in ConfirmedFlaky state.
    pub fn is_flaky(&self) -> (r: bool)
        ensures
            r == self.spec_is_flaky(),
    {
        match self {
            StabilityState::Flaky { streak_count } => *streak_count >= 2,
            StabilityState::ConfirmedFlaky => true,
            _ => false,
        }
    }

    /// Returns true if the test is confirmed flaky.
    pub fn is_confirmed_flaky(&self) -> (r: bool)
        ensures
            r == (*self is ConfirmedFlaky),
    {
        match self {
            StabilityState::ConfirmedFlaky => true,
            _ => false,
        }
    }

    /// Returns true if the test is stable (consistently passing).
    pub fn is_stable(&self) -> (r: bool)
        ensures
            r == (*self is Stable),
    {
        match self {
            StabilityState::Stable { .. } => true,
            _ => false,
        }
    }

    /// An owned copy of this state.
    pub fn copy(&self) -> (r: StabilityState)
        ensures
            r == *self,
    {
        match self {
            StabilityState::Unknown => StabilityState::Unknown,
            StabilityState::Stable { consecutive_passes } => StabilityState::Stable {
                consecutive_passes: *consecutive_passes,
            },
            StabilityState::Unstable { consecutive_failures } => StabilityState::Unstable {
                consecutive_failures: *consecutive_failures,
            },
            StabilityState::Flaky { streak_count } => StabilityState::Flaky {
                streak_count: *streak_count,
            },
            StabilityState::ConfirmedFlaky => StabilityState::ConfirmedFlaky,
        }
    }
}

/// Represents a single collected test node.
#[derive(Debug, Clone, PartialEq)]
pub struct TestNode {
    pub node_id: String,
    pub file_path: String,
    pub name: String,
    pub class_name: Option<String>,
    pub line_number: u32,
    pub markers: Vec<String>,
    pub skip: bool,
    pub xfail: bool,
}

impl From<TestNodeInfo> for TestNode {
    fn from(info: TestNodeInfo) -> (r: TestNode) {
        TestNode::from_info(info)
    }
}

impl vstd::std_specs::convert::FromSpecImpl<TestNodeInfo> for TestNode {
    open spec fn obeys_from_spec() -> bool {
        true
    }

    open spec fn from_spec(info: TestNodeInfo) -> TestNode {
        TestNode {
            node_id: info.node_id,
            file_path: info.file_path,
            name: info.name,
            class_name: info.class_name,
            line_number: match info.lineno {
                Some(l) => l,
                None => 0,
            },
            markers: info.markers,
            skip: info.skip,
            xfail: info.xfail,
        }
    }
}

impl From<TestNode> for TestNodeInfo {
    fn from(node: TestNode) -> (r: TestNodeInfo) {
        node.into_info()
    }
}

impl vstd::std_specs::convert::FromSpecImpl<TestNode> for TestNodeInfo {
    open spec fn obeys_from_spec() -> bool {
        true
    }

    open spec fn from_spec(node: TestNode) -> TestNodeInfo {
        TestNodeInfo {
            node_id: node.node_id,
            file_path: node.file_path,
            lineno: Some(node.line_number),
            name: node.name,
            class_name: node.class_name,
            markers: node.markers,
            skip: node.skip,
            xfail: node.xfail,
        }
    }
}

/// The plain content of a collected test node.
pub struct NodeView {
    pub node_id: Seq<char>,
    pub file_path: Seq<char>,
    pub name: Seq<char>,
    pub class_name: Option<Seq<char>>,
    pub line_number: u32,
    pub markers: Seq<Seq<char>>,
    pub skip: bool,
    pub xfail: bool,
}

/// The plain content of `n`.
pub open spec fn node_view(n: TestNode) -> NodeView {
    NodeView {
        node_id: n.node_id@,
        file_path: n.file_path@,
        name: n.name@,
        class_name: match n.class_name {
            Some(c) => Some(c@),
            None => None,
        },
        line_number: n.line_number,
        markers: string_views(n.markers@),
        skip: n.skip,
        xfail: n.xfail,
    }
}

impl TestNode {
    /// A copy of this node.
    pub fn duplicate(&self) -> (r: TestNode)
        ensures
            node_view(r) == node_view(*self),
            r.node_id == self.node_id,
            r.markers@ == self.markers@,
    {
        TestNode {
            node_id: self.node_id.clone(),
            file_path: self.file_path.clone(),
            name: self.name.clone(),
            class_name: copy_opt_string(&self.class_name),
            line_number: self.line_number,
            markers: copy_strings(&self.markers),
            skip: self.skip,
            xfail: self.xfail,
        }
    }

    /// The node described by protocol information (a missing line number reads as 0).
    pub fn from_info(info: TestNodeInfo) -> (r: TestNode)
        ensures
            r == (TestNode {
                node_id: info.node_id,
                file_path: info.file_path,
                name: info.name,
                class_name: info.class_name,
                line_number: match info.lineno {
                    Some(l) => l,
                    None => 0,
                },
                markers: info.markers,
                skip: info.skip,
                xfail: info.xfail,
            }),
    {
        TestNode {
            node_id: info.node_id,
            file_path: info.file_path,
            name: info.name,
            class_name: info.class_name,
            line_number: match info.lineno {
                Some(l) => l,
                None => 0,
            },
            markers: info.markers,
            skip: info.skip,
            xfail: info.xfail,
        }
    }

    /// The protocol information describing this node.
    pub fn into_info(self) -> (r: TestNodeInfo)
        ensures
            r == (TestNodeInfo {
                node_id: self.node_id,
                file_path: self.file_path,
                lineno: Some(self.line_number),
                name: self.name,
                class_name: self.class_name,
                markers: self.markers,
                skip: self.skip,
                xfail: self.xfail,
            }),
    {
        TestNodeInfo {
            node_id: self.node_id,
            file_path: self.file_path,
            lineno: Some(self.line_number),
            name: self.name,
            class_name: self.class_name,
            markers: self.markers,
            skip: self.skip,
            xfail: self.xfail,
        }
    }
}

/// Converting a node to protocol information and back gives the node again.
pub proof fn lemma_node_info_roundtrip(node: TestNode)
    ensures
        ({
            let info = TestNodeInfo {
                node_id: node.node_id,
                file_path: node.file_path,
                lineno: Some(node.line_number),
                name: node.name,
                class_name: node.class_name,
                markers: node.markers,
                skip: node.skip,
                xfail: node.xfail,
            };
            <TestNode as vstd::std_specs::convert::FromSpec<TestNodeInfo>>::from_spec(info) == node
        }),
{
}

/// Result of a single test execution.
#[derive(Debug, Clone, PartialEq)]
pub struct TestResult {
    pub node_id: String,
    pub outcome: TestOutcome,
    pub duration_ms: u64,
    pub message: Option<String>,
    pub stdout: Option<String>,
    pub stderr: Option<String>,
}

/// Summary of a test run.
#[derive(Debug, Clone, PartialEq)]
pub struct RunSummary {
    pub total: usize,
    pub passed: usize,
    pub failed: usize,
    pub skipped: usize,
    pub errors: usize,
    pub duration_ms: u64,
}

/// Information about a parametrized test variant.
#[derive(Debug, Clone, PartialEq)]
pub struct ParameterizedTestNode {
    /// Parameter names (e.g., ["x", "y"] for "x,y").
    pub param_names: Vec<String>,
    /// Values, custom id and per-variant marks of each variant.
    pub param_values: Vec<(Vec<String>, Option<String>, Vec<String>)>,
    /// Generated test ID for a specific variant.
    pub test_id: String,
}

/// Configuration for auto-rerun behavior.
#[derive(Debug, Clone, PartialEq)]
pub struct RerunConfig {
    pub enabled: bool,
    pub max_reruns: u32,
    pub only_flaky: bool,
    pub delay_ms: u32,
}

impl Default for RerunConfig {
    fn default() -> (r: RerunConfig)
        ensures
            r == (RerunConfig { enabled: false, max_reruns: 2, only_flaky: false, delay_ms: 0 }),
    {
        RerunConfig { enabled: false, max_reruns: 2, only_flaky: false, delay_ms: 0 }
    }
}

/// Result of a rerun attempt.
#[derive(Debug, Clone, PartialEq)]
pub struct RerunResult {
    pub node_id: String,
    pub original_outcome: TestOutcome,
    pub rerun_outcomes: Vec<TestOutcome>,
    pub final_outcome: TestOutcome,
    pub is_flaky: bool,
    pub message: Option<String>,
}

/// Record of test flakiness over time.
#[derive(Debug, Clone, PartialEq)]
pub struct FlakinessRecord {
    pub node_id: String,
    /// The most recent outcomes, oldest first, by name.
    pub outcomes: Vec<String>,
    pub consecutive_failures: u32,
    pub consecutive_passes: u32,
    pub flaky_streak: u32,
    pub total_runs: u32,
    pub last_failure_message: Option<String>,
    pub stability: StabilityState,
}

/// Fixture scope levels.
#[derive(Debug, Clone, Copy, PartialEq, Eq, Structural)]
pub enum FixtureScope {
    Session,
    Package,
    Module,
    Class,
    Function,
}

/// The scope a name stands for; unknown names mean function scope.
pub open spec fn scope_from_name(s: Seq<char>) -> FixtureScope {
    if s == seq!['s', 'e', 's', 's', 'i', 'o', 'n'] {
        FixtureScope::Session
    } else if s == seq!['p', 'a', 'c', 'k', 'a', 'g', 'e'] {
        FixtureScope::Package
    } else if s == seq!['m', 'o', 'd', 'u', 'l', 'e'] {
        FixtureScope::Module
    } else if s == seq!['c', 'l', 'a', 's', 's'] {
        FixtureScope::Class
    } else {
        FixtureScope::Function
    }
}

impl FixtureScope {
    /// The scope a name stands for; unknown names mean function scope.
    pub fn parse(s: &str) -> (r: FixtureScope)
        ensures
            r == scope_from_name(s@),
    {
        proof {
            reveal_strlit("session");
            reveal_strlit("package");
            reveal_strlit("module");
            reveal_strlit("class");
            assert("session"@ =~= seq!['s', 'e', 's', 's', 'i', 'o', 'n']);
            assert("package"@ =~= seq!['p', 'a', 'c', 'k', 'a', 'g', 'e']);
            assert("module"@ =~= seq!['m', 'o', 'd', 'u', 'l', 'e']);
            assert("class"@ =~= seq!['c', 'l', 'a', 's', 's']);
        }
        if str_eq(s, "session") {
            FixtureScope::Session
        } else if str_eq(s, "package") {
            FixtureScope::Package
        } else if str_eq(s, "module") {
            FixtureScope::Module
        } else if str_eq(s, "class") {
            FixtureScope::Class
        } else {
            FixtureScope::Function
        }
    }
}

impl<'a> From<&'a str> for FixtureScope {
    fn from(s: &'a str) -> (r: FixtureScope) {
        FixtureScope::parse(s)
    }
}

impl<'a> vstd::std_specs::convert::FromSpecImpl<&'a str> for FixtureScope {
    open spec fn obeys_from_spec() -> bool {
        true
    }

    open spec fn from_spec(v: &'a str) -> FixtureScope {
        scope_from_name(v@)
    }
}

/// A test with scheduling metadata.
#[derive(Debug, Clone)]
pub struct ScheduledTest {
    pub node_id: String,
    pub estimated_duration_ms: u64,
    pub priority: u64,
}

/// Shard configuration.
#[derive(Debug, Clone, PartialEq, Default)]
pub struct ShardConfig {
    pub shard_index: u32,
    pub total_shards: u32,
    pub strategy: String,
}

/// Executor settings carried in daemon configuration.
#[derive(Debug, Clone, PartialEq, Default)]
pub struct ExecutorConfig {
    pub workers: Option<u32>,
    pub maxfail: Option<u32>,
    pub batch_size: usize,
}

/// Execution mode for running tests.
#[derive(Debug, Clone, Copy, PartialEq, Eq, Default, Structural)]
pub enum ExecutionMode {
    /// Use embedded Python (fastest, requires an embeddable interpreter).
    #[default]
    Embedded,
    /// Use subprocess execution (compatible with all Python environments).
    Subprocess,
    /// Use a worker pool for parallel subprocess execution (best throughput).
    Pooled,
    /// Automatically select based on availability.
    Auto,
}

/// The lower-case name of a mode.
pub open spec fn mode_name(m: ExecutionMode) -> Seq<char> {
    match m {
        ExecutionMode::Embedded => seq!['e', 'm', 'b', 'e', 'd', 'd', 'e', 'd'],
        ExecutionMode::Subprocess => seq!['s', 'u', 'b', 'p', 'r', 'o', 'c', 'e', 's', 's'],
        ExecutionMode::Pooled => seq!['p', 'o', 'o', 'l', 'e', 'd'],
        ExecutionMode::Auto => seq!['a', 'u', 't', 'o'],
    }
}

/// The mode whose name is `s`.
pub open spec fn mode_named(s: Seq<char>) -> Option<ExecutionMode> {
    if s == mode_name(ExecutionMode::Embedded) {
        Some(ExecutionMode::Embedded)
    } else if s == mode_name(ExecutionMode::Subprocess) {
        Some(ExecutionMode::Subprocess)
    } else if s == mode_name(ExecutionMode::Pooled) {
        Some(ExecutionMode::Pooled)
    } else if s == mode_name(ExecutionMode::Auto) {
        Some(ExecutionMode::Auto)
    } else {
        None
    }
}

/// The message given back for a string that names no mode.
pub open spec fn invalid_mode_message(s: Seq<char>) -> Seq<char> {
    "Invalid execution mode: "@ + s
        + ". Use 'embedded', 'subprocess', 'pooled', or 'auto'"@
}

/// Parsing a mode: its lower-cased name decides, case does not matter.
pub open spec fn parse_mode_spec(s: Seq<char>) -> Result<ExecutionMode, Seq<char>> {
    match mode_named(lowercase(s)) {
        Some(m) => Ok(m),
        None => Err(invalid_mode_message(s)),
    }
}

impl ExecutionMode {
    /// The lower-case name of this mode.
    pub fn to_string(&self) -> (r: String)
        ensures
            r@ == mode_name(*self),
    {
        match self {
            ExecutionMode::Embedded => {
                let r = String::from_str("embedded");
                proof {
                    reveal_strlit("embedded");
                    assert("embedded"@ =~= mode_name(*self));
                }
                r
            },
            ExecutionMode::Subprocess => {
                let r = String::from_str("subprocess");
                proof {
                    reveal_strlit("subprocess");
                    assert("subprocess"@ =~= mode_name(*self));
                }
                r
            },
            ExecutionMode::Pooled => {
                let r = String::from_str("pooled");
                proof {
                    reveal_strlit("pooled");
                    assert("pooled"@ =~= mode_name(*self));
                }
                r
            },
            ExecutionMode::Auto => {
                let r = String::from_str("auto");
                proof {
                    reveal_strlit("auto");
                    assert("auto"@ =~= mode_name(*self));
                }
                r
            },
        }
    }

    /// The mode whose lower-cased name is `s`, or the message naming the valid modes.
    pub fn parse(s: &str) -> (r: Result<ExecutionMode, String>)
        ensures
            match r {
                Ok(m) => parse_mode_spec(s@) == Ok::<ExecutionMode, Seq<char>>(m),
                Err(msg) => parse_mode_spec(s@) == Err::<ExecutionMode, Seq<char>>(msg@),
            },
    {
        let lower = to_lower(s);
        let l = lower.as_str();
        proof {
            reveal_strlit("embedded");
            reveal_strlit("subprocess");
            reveal_strlit("pooled");
            reveal_strlit("auto");
            assert("embedded"@ =~= mode_name(ExecutionMode::Embedded));
            assert("subprocess"@ =~= mode_name(ExecutionMode::Subprocess));
            assert("pooled"@ =~= mode_name(ExecutionMode::Pooled));
            assert("auto"@ =~= mode_name(ExecutionMode::Auto));
        }
        if str_eq(l, "embedded") {
            Ok(ExecutionMode::Embedded)
        } else if str_eq(l, "subprocess") {
            Ok(ExecutionMode::Subprocess)
        } else if str_eq(l, "pooled") {
            Ok(ExecutionMode::Pooled)
        } else if str_eq(l, "auto") {
            Ok(ExecutionMode::Auto)
        } else {
            let mut msg = String::from_str("Invalid execution mode: ");
            msg.append(s);
            msg.append(". Use 'embedded', 'subprocess', 'pooled', or 'auto'");
            Err(msg)
        }
    }
}

impl std::str::FromStr for ExecutionMode {
    type Err = String;

    fn from_str(s: &str) -> (r: Result<ExecutionMode, String>)
        ensures
            match r {
                Ok(m) => parse_mode_spec(s@) == Ok::<ExecutionMode, Seq<char>>(m),
                Err(msg) => parse_mode_spec(s@) == Err::<ExecutionMode, Seq<char>>(msg@),
            },
    {
        ExecutionMode::parse(s)
    }
}

/// The data directory that `dirs::data_dir` reports, as the encoded bytes
/// of the path (`OsString::into_encoded_bytes`); it depends on the
/// environment and the platform, so nothing is stated of it.
#[verifier::external_body]
fn data_dir_bytes() -> (r: Option<Vec<u8>>) {
    dirs::data_dir().map(|p| p.into_os_string().into_encoded_bytes())
}

/// `base` joined with a relative path component, byte by byte, as
/// `Path::join` joins them: a `/` goes between them unless `base` is empty
/// or already ends with one.
pub open spec fn join_bytes(base: Seq<u8>, part: Seq<u8>) -> Seq<u8> {
    if base.len() == 0 || base.last() == 47u8 {
        base + part
    } else {
        base + seq![47u8] + part
    }
}

/// The bytes of the path component `rpytest`.
pub open spec fn rpytest_bytes() -> Seq<u8> {
    seq![114u8, 112u8, 121u8, 116u8, 101u8, 115u8, 116u8]
}

/// The base of the storage path: the data directory, `.` when there is none.
pub open spec fn data_base(data_dir: Option<Seq<u8>>) -> Seq<u8> {
    match data_dir {
        Some(d) => d,
        None => seq![46u8],
    }
}

/// `base` joined with a relative path component, as `Path::join` joins them.
pub open spec fn join_component(base: Seq<char>, part: Seq<char>) -> Seq<char> {
    if base.len() == 0 || ends_with(base, seq!['/']) {
        base + part
    } else {
        base + seq!['/'] + part
    }
}

/// Joins a relative path component onto a base path.
pub fn join_path(base: &str, part: &str) -> (r: String)
    ensures
        r@ == join_component(base@, part@),
{
    let b = chars_of(base);
    let slash = ['/'];
    let mut r = String::from_str(base);
    if b.len() == 0 || ends_with_chars(&b, &slash) {
        r.append(part);
    } else {
        r.append("/");
        proof {
            reveal_strlit("/");
        }
        r.append(part);
    }
    proof {
        assert(slash@ =~= seq!['/']);
    }
    r
}

/// The directories tried, in order, for the daemon's storage: the one asked
/// for, `rpytest` in the cache directory (`/tmp` without one), `rpytest` in
/// the temporary directory, and `.rpytest/daemon` in the working directory
/// (`.` without one).
pub open spec fn storage_dirs(
    preferred: Option<Seq<char>>,
    cache: Option<Seq<char>>,
    temp: Seq<char>,
    cwd: Option<Seq<char>>,
) -> Seq<Seq<char>> {
    let first = match preferred {
        Some(p) => seq![p],
        None => Seq::empty(),
    };
    let cache_base = match cache {
        Some(c) => c,
        None => "/tmp"@,
    };
    let cwd_base = match cwd {
        Some(c) => c,
        None => "."@,
    };
    first + seq![
        join_component(cache_base, "rpytest"@),
        join_component(temp, "rpytest"@),
        join_component(join_component(cwd_base, ".rpytest"@), "daemon"@),
    ]
}

/// The directories to try for the daemon's storage, in order.
pub fn storage_candidates(
    preferred: Option<&str>,
    cache_dir: Option<&str>,
    temp_dir: &str,
    current_dir: Option<&str>,
) -> (r: Vec<String>)
    ensures
        string_views(r@) == storage_dirs(
            match preferred {
                Some(p) => Some(p@),
                None => None,
            },
            match cache_dir {
                Some(c) => Some(c@),
                None => None,
            },
            temp_dir@,
            match current_dir {
                Some(c) => Some(c@),
                None => None,
            },
        ),
{
    let mut r: Vec<String> = Vec::new();
    match preferred {
        Some(p) => r.push(String::from_str(p)),
        None => {},
    }
    let cache_base = match cache_dir {
        Some(c) => c,
        None => "/tmp",
    };
    let cwd_base = match current_dir {
        Some(c) => c,
        None => ".",
    };
    r.push(join_path(cache_base, "rpytest"));
    r.push(join_path(temp_dir, "rpytest"));
    let local = join_path(cwd_base, ".rpytest");
    r.push(join_path(local.as_str(), "daemon"));
    proof {
        let pre = match preferred {
            Some(p) => Some(p@),
            None => None,
        };
        let first = match pre {
            Some(p) => seq![p],
            None => Seq::<Seq<char>>::empty(),
        };
        assert(string_views(r@) =~= first + seq![
            join_component(cache_base@, "rpytest"@),
            join_component(temp_dir@, "rpytest"@),
            join_component(join_component(cwd_base@, ".rpytest"@), "daemon"@),
        ]);
    }
    r
}

/// Daemon runtime configuration. The storage path is held as the encoded
/// bytes of the path, since the data directory it starts from need not be text.
#[derive(Debug, Clone)]
pub struct DaemonConfig {
    pub socket_path: String,
    pub storage_path: Vec<u8>,
    pub python_path: Option<String>,
    pub idle_timeout_secs: u32,
    pub max_workers: u32,
    /// Execution mode for running tests.
    pub execution_mode: ExecutionMode,
}

/// Appends the bytes of `rpytest` to `v`.
fn push_rpytest(v: &mut Vec<u8>)
    ensures
        final(v)@ == old(v)@ + rpytest_bytes(),
{
    v.push(114u8);
    v.push(112u8);
    v.push(121u8);
    v.push(116u8);
    v.push(101u8);
    v.push(115u8);
    v.push(116u8);
    assert(v@ =~= old(v)@ + rpytest_bytes());
}

impl DaemonConfig {
    /// Default configuration with the given data directory, as the encoded
    /// bytes of its path (".", when there is none).
    pub fn with_data_dir(data_dir: Option<Vec<u8>>) -> (r: DaemonConfig)
        ensures
            r.socket_path@ == "/tmp/rpytest.sock"@,
            r.storage_path@ == join_bytes(
                data_base(
                    match data_dir {
                        Some(d) => Some(d@),
                        None => None,
                    },
                ),
                rpytest_bytes(),
            ),
            r.python_path is None,
            r.idle_timeout_secs == 0,
            r.max_workers == 4,
            r.execution_mode == ExecutionMode::Auto,
    {
        let mut path: Vec<u8> = match data_dir {
            Some(d) => d,
            None => vec![46u8],
        };
        let ghost base = path@;
        let n = path.len();
        if n > 0 && path[n - 1] == 47u8 {
        } else if n > 0 {
            path.push(47u8);
        }
        assert(path@ == if base.len() == 0 || base.last() == 47u8 {
            base
        } else {
            base + seq![47u8]
        });
        push_rpytest(&mut path);
        DaemonConfig {
            socket_path: String::from_str("/tmp/rpytest.sock"),
            storage_path: path,
            python_path: None,
            idle_timeout_secs: 0,
            max_workers: 4,
            execution_mode: ExecutionMode::Auto,
        }
    }
}

impl Default for DaemonConfig {
    /// The default configuration: the storage is `rpytest` in the platform's
    /// data directory (in `.` when there is none).
    fn default() -> (r: DaemonConfig)
        ensures
            r.socket_path@ == "/tmp/rpytest.sock"@,
            exists|d: Option<Seq<u8>>| r.storage_path@ == join_bytes(#[trigger] data_base(d), rpytest_bytes()),
            r.python_path is None,
            r.idle_timeout_secs == 0,
            r.max_workers == 4,
            r.execution_mode == ExecutionMode::Auto,
    {
        let dir = data_dir_bytes();
        let ghost d = match &dir {
            Some(v) => Some(v@),
            None => None::<Seq<u8>>,
        };
        let r = DaemonConfig::with_data_dir(dir);
        assert(r.storage_path@ == join_bytes(data_base(d), rpytest_bytes()));
        r
    }
}

} // verus!
