//! The built-in rule packs.
//!
//! Packs are data of the library: checking hints for one kind of file each, with
//! the path patterns that claim files for it and the examples that the hints are
//! evaluated against. Declaration order is priority order: `default` is last, and
//! `matlab` stands before `objc` because `.m` is MATLAB unless its content says
//! otherwise.

use vstd::prelude::*;

use crate::text;

verus! {

/// Checking hints for one kind of file.
#[derive(Debug, Clone)]
pub struct RulePack {
    pub id: String,
    pub version: String,
    pub language: String,
    /// Path patterns; declaration order is the priority order.
    pub scope: Vec<String>,
    pub checks: Vec<RuleCheck>,
    /// Positive and negative examples. They never reach a prompt: they are what
    /// reviews and offline checks are evaluated against.
    pub examples: Vec<RuleExample>,
}

/// One group of checkpoints.
#[derive(Debug, Clone)]
pub struct RuleCheck {
    pub title: String,
    pub items: Vec<String>,
}

/// One example of a pack.
#[derive(Debug, Clone)]
pub struct RuleExample {
    pub positive: bool,
    pub note: String,
    pub code: String,
}

/// What a check holds.
#[verifier::ext_equal]
pub struct CheckView {
    pub title: Seq<char>,
    pub items: Seq<Seq<char>>,
}

/// What an example holds.
#[verifier::ext_equal]
pub struct ExampleView {
    pub positive: bool,
    pub note: Seq<char>,
    pub code: Seq<char>,
}

/// What a pack holds.
#[verifier::ext_equal]
pub struct PackView {
    pub id: Seq<char>,
    pub version: Seq<char>,
    pub language: Seq<char>,
    pub scope: Seq<Seq<char>>,
    pub checks: Seq<CheckView>,
    pub examples: Seq<ExampleView>,
}

impl View for RuleCheck {
    type V = CheckView;

    open spec fn view(&self) -> CheckView {
        CheckView { title: self.title@, items: text::views(self.items@) }
    }
}

impl View for RuleExample {
    type V = ExampleView;

    open spec fn view(&self) -> ExampleView {
        ExampleView { positive: self.positive, note: self.note@, code: self.code@ }
    }
}

/// The contents of checks.
pub open spec fn check_views(checks: Seq<RuleCheck>) -> Seq<CheckView> {
    checks.map_values(|c: RuleCheck| c@)
}

/// The contents of examples.
pub open spec fn example_views(examples: Seq<RuleExample>) -> Seq<ExampleView> {
    examples.map_values(|e: RuleExample| e@)
}

impl View for RulePack {
    type V = PackView;

    open spec fn view(&self) -> PackView {
        PackView {
            id: self.id@,
            version: self.version@,
            language: self.language@,
            scope: text::views(self.scope@),
            checks: check_views(self.checks@),
            examples: example_views(self.examples@),
        }
    }
}

/// The contents of packs.
pub open spec fn pack_views(packs: Seq<RulePack>) -> Seq<PackView> {
    packs.map_values(|p: RulePack| p@)
}

// ---------------------------------------------------------------------------
// Data
// ---------------------------------------------------------------------------

/// Version of every built-in pack.
pub const PACK_VERSION: &'static str = "1";

pub const RUST_SCOPE: [&'static str; 3] = ["**/*.rs", "**/Cargo.toml", "**/build.rs"];

pub const RUST_ERRORS: [&'static str; 3] = [
    "unwrap, expect or indexing on a path that outside input reaches",
    "an error that is dropped, or mapped to a default that hides the failure",
    "integer arithmetic that can overflow or truncate in a cast",
];

pub const RUST_SHARING: [&'static str; 3] = [
    "a lock that is held across an await point",
    "unsafe code without a stated invariant, or one that callers can break",
    "a clone or an allocation inside a hot loop that a borrow would avoid",
];

pub const GO_SCOPE: [&'static str; 3] = ["**/*.go", "**/go.mod", "**/go.work"];

pub const GO_ERRORS: [&'static str; 3] = [
    "an error result that is assigned and never looked at",
    "an error that is returned without the context a caller needs",
    "a nil map, slice or pointer that is used on an error path",
];

pub const GO_SHARING: [&'static str; 3] = [
    "a goroutine that no context or channel ever stops",
    "shared state that is written without a lock",
    "a defer inside a loop that holds resources until the function returns",
];

pub const TS_SCOPE: [&'static str; 6] = [
    "**/*.ts", "**/*.tsx", "**/*.js", "**/*.jsx", "**/*.mjs", "**/*.cjs",
];

pub const TS_TYPES: [&'static str; 3] = [
    "a cast or an any that hides a value of the wrong shape",
    "a possibly undefined value that is used without a test",
    "loose equality where the operands can have different types",
];

pub const TS_ASYNC: [&'static str; 3] = [
    "a promise that is neither awaited nor handled",
    "an effect or a listener that is never cleaned up",
    "markup that is built from text nobody escaped",
];

pub const PYTHON_SCOPE: [&'static str; 3] = ["**/*.py", "**/*.pyi", "**/pyproject.toml"];

pub const PYTHON_ERRORS: [&'static str; 3] = [
    "a bare except, or one that swallows the exception",
    "a mutable default argument",
    "a file, socket or lock that is not released on every path",
];

pub const PYTHON_INPUT: [&'static str; 3] = [
    "a shell command or a query that is assembled from outside text",
    "deserialization of data that others can write",
    "an assert that guards something that must hold in production",
];

pub const CI_SCOPE: [&'static str; 4] = [
    ".github/workflows/*.yml", ".github/workflows/*.yaml", "**/action.yml", "**/.gitlab-ci.yml",
];

pub const CI_TRUST: [&'static str; 3] = [
    "a third-party action that is not pinned to a commit",
    "an event that hands secrets to code from a fork",
    "event text that is expanded inside a script",
];

pub const CI_SCOPES: [&'static str; 2] = [
    "a token with more permissions than the job needs",
    "a job without a timeout, or one that can run twice at once",
];

pub const MATLAB_SCOPE: [&'static str; 2] = ["**/*.m", "**/*.mlx"];

pub const MATLAB_NUMERICS: [&'static str; 3] = [
    "an array that grows inside a loop",
    "an elementwise operator mixed up with its matrix counterpart",
    "indices computed as floating-point values",
];

pub const OBJC_SCOPE: [&'static str; 1] = ["**/*.m"];

pub const OBJC_MEMORY: [&'static str; 3] = [
    "a block that captures self strongly and is kept by self",
    "a delegate that is not weak",
    "a message to nil whose zero result is taken for an answer",
];

pub const DEFAULT_GENERAL: [&'static str; 3] = [
    "behaviour that changed and that no test covers",
    "an input that is used before it is checked",
    "a failure that is reported to nobody",
];

/// A check with a title and a list of items.
pub open spec fn a_check(title: Seq<char>, items: Seq<&str>) -> CheckView {
    CheckView { title, items: text::texts(items) }
}

/// An example.
pub open spec fn an_example(positive: bool, note: Seq<char>, code: Seq<char>) -> ExampleView {
    ExampleView { positive, note, code }
}

/// A pack of the current version.
pub open spec fn a_pack(
    id: Seq<char>,
    language: Seq<char>,
    scope: Seq<Seq<char>>,
    checks: Seq<CheckView>,
    examples: Seq<ExampleView>,
) -> PackView {
    PackView { id, version: PACK_VERSION@, language, scope, checks, examples }
}

/// The pack for Rust.
pub open spec fn rust_pack() -> PackView {
    a_pack(
        "rust"@,
        "Rust"@,
        text::texts(RUST_SCOPE@),
        seq![
            a_check("Errors and arithmetic"@, RUST_ERRORS@),
            a_check("Ownership and concurrency"@, RUST_SHARING@),
        ],
        seq![
            an_example(true, "checked error path instead of unwrap"@, "let n = text.parse().map_err(Error::Bad)?;"@),
            an_example(false, "outside input can panic the process"@, "let n: u32 = text.parse().unwrap();"@),
        ],
    )
}

/// The pack for Go.
pub open spec fn go_pack() -> PackView {
    a_pack(
        "go"@,
        "Go"@,
        text::texts(GO_SCOPE@),
        seq![
            a_check("Errors"@, GO_ERRORS@),
            a_check("Concurrency and resources"@, GO_SHARING@),
        ],
        seq![
            an_example(true, "the error is wrapped and returned"@, "return fmt.Errorf(\"open %s: %w\", name, err)"@),
            an_example(false, "the error is thrown away"@, "f, _ := os.Open(name)"@),
        ],
    )
}

/// The pack for TypeScript and JavaScript.
pub open spec fn ts_pack() -> PackView {
    a_pack(
        "ts-js"@,
        "TypeScript / JavaScript"@,
        text::texts(TS_SCOPE@),
        seq![
            a_check("Types and equality"@, TS_TYPES@),
            a_check("Asynchronous code and the page"@, TS_ASYNC@),
        ],
        seq![
            an_example(true, "the promise is awaited"@, "await save(record);"@),
            an_example(false, "a failure of save is never seen"@, "save(record);"@),
        ],
    )
}

/// The pack for Python.
pub open spec fn python_pack() -> PackView {
    a_pack(
        "python"@,
        "Python"@,
        text::texts(PYTHON_SCOPE@),
        seq![
            a_check("Errors and resources"@, PYTHON_ERRORS@),
            a_check("Outside input"@, PYTHON_INPUT@),
        ],
        seq![
            an_example(true, "the default is made per call"@, "def add(x, items=None):"@),
            an_example(false, "all calls share one list"@, "def add(x, items=[]):"@),
        ],
    )
}

/// The pack for CI workflows.
pub open spec fn ci_pack() -> PackView {
    a_pack(
        "ci-yaml"@,
        "CI workflows"@,
        text::texts(CI_SCOPE@),
        seq![
            a_check("Trust"@, CI_TRUST@),
            a_check("Permissions and limits"@, CI_SCOPES@),
        ],
        seq![
            an_example(true, "the token can only read"@, "permissions: { contents: read }"@),
            an_example(false, "the title runs as a script"@, "run: echo ${{ github.event.issue.title }}"@),
        ],
    )
}

/// The pack for MATLAB.
pub open spec fn matlab_pack() -> PackView {
    a_pack(
        "matlab"@,
        "MATLAB"@,
        text::texts(MATLAB_SCOPE@),
        seq![a_check("Arrays and numerics"@, MATLAB_NUMERICS@)],
        seq![
            an_example(true, "the array has its size from the start"@, "y = zeros(1, n);"@),
            an_example(false, "the array is copied in every step"@, "y(end + 1) = x;"@),
        ],
    )
}

/// The pack for Objective-C.
pub open spec fn objc_pack() -> PackView {
    a_pack(
        "objc"@,
        "Objective-C"@,
        text::texts(OBJC_SCOPE@),
        seq![a_check("Memory and messaging"@, OBJC_MEMORY@)],
        seq![
            an_example(true, "the block holds self weakly"@, "__weak typeof(self) weakSelf = self;"@),
            an_example(false, "self and the block keep each other alive"@, "self.done = ^{ [self finish]; };"@),
        ],
    )
}

/// The pack that applies where no other does.
pub open spec fn fallback_pack() -> PackView {
    a_pack(
        "default"@,
        "General"@,
        Seq::empty(),
        seq![a_check("Any change"@, DEFAULT_GENERAL@)],
        seq![
            an_example(true, "the change comes with its test"@, "a new branch and a test that takes it"@),
            an_example(false, "the failure is only logged"@, "catch, log, carry on with half a result"@),
        ],
    )
}

/// The built-in packs, in declaration order.
pub open spec fn built_in() -> Seq<PackView> {
    seq![
        rust_pack(),
        go_pack(),
        ts_pack(),
        python_pack(),
        ci_pack(),
        matlab_pack(),
        objc_pack(),
        fallback_pack(),
    ]
}

// ---------------------------------------------------------------------------
// Construction
// ---------------------------------------------------------------------------

/// Owned copies of a list of texts.
fn owned(list: &[&str]) -> (r: Vec<String>)
    ensures
        text::views(r@) == text::texts(list@),
{
    let mut out: Vec<String> = Vec::new();
    let mut i: usize = 0;
    while i < list.len()
        invariant
            i <= list@.len(),
            text::views(out@) == text::texts(list@).take(i as int),
        decreases list@.len() - i,
    {
        let ghost before = out@;
        out.push(list[i].to_owned());
        proof {
            text::lemma_views_push(before, out@.last());
            assert(text::texts(list@).take(i + 1) =~= text::texts(list@).take(i as int).push(
                list@[i as int]@,
            ));
        }
        i = i + 1;
    }
    assert(text::texts(list@).take(i as int) =~= text::texts(list@));
    out
}

fn check(title: &str, items: &[&str]) -> (r: RuleCheck)
    ensures
        r@ == a_check(title@, items@),
{
    RuleCheck { title: title.to_owned(), items: owned(items) }
}

fn example(positive: bool, note: &str, code: &str) -> (r: RuleExample)
    ensures
        r@ == an_example(positive, note@, code@),
{
    RuleExample { positive, note: note.to_owned(), code: code.to_owned() }
}

/// The contents of a check, and of a second one where there is one.
pub open spec fn one_or_two(first: RuleCheck, second: Option<RuleCheck>) -> Seq<CheckView> {
    match second {
        Some(c) => seq![first@, c@],
        None => seq![first@],
    }
}

/// A pack with one or two checks and a positive and a negative example.
fn pack(
    id: &str,
    language: &str,
    scope: &[&str],
    first: RuleCheck,
    second: Option<RuleCheck>,
    good: RuleExample,
    bad: RuleExample,
) -> (r: RulePack)
    ensures
        r@ == a_pack(
            id@,
            language@,
            text::texts(scope@),
            one_or_two(first, second),
            seq![good@, bad@],
        ),
{
    let ghost wanted = one_or_two(first, second);
    let mut checks: Vec<RuleCheck> = Vec::new();
    checks.push(first);
    if let Some(c) = second {
        checks.push(c);
    }
    let mut examples: Vec<RuleExample> = Vec::new();
    examples.push(good);
    examples.push(bad);
    assert(check_views(checks@) =~= wanted);
    assert(example_views(examples@) =~= seq![good@, bad@]);
    RulePack {
        id: id.to_owned(),
        version: PACK_VERSION.to_owned(),
        language: language.to_owned(),
        scope: owned(scope),
        checks,
        examples,
    }
}

fn make_rust() -> (r: RulePack)
    ensures
        r@ == rust_pack(),
{
    pack(
        "rust",
        "Rust",
        &RUST_SCOPE,
        check("Errors and arithmetic", &RUST_ERRORS),
        Some(check("Ownership and concurrency", &RUST_SHARING)),
        example(true, "checked error path instead of unwrap", "let n = text.parse().map_err(Error::Bad)?;"),
        example(false, "outside input can panic the process", "let n: u32 = text.parse().unwrap();"),
    )
}

fn make_go() -> (r: RulePack)
    ensures
        r@ == go_pack(),
{
    pack(
        "go",
        "Go",
        &GO_SCOPE,
        check("Errors", &GO_ERRORS),
        Some(check("Concurrency and resources", &GO_SHARING)),
        example(true, "the error is wrapped and returned", "return fmt.Errorf(\"open %s: %w\", name, err)"),
        example(false, "the error is thrown away", "f, _ := os.Open(name)"),
    )
}

fn make_ts() -> (r: RulePack)
    ensures
        r@ == ts_pack(),
{
    pack(
        "ts-js",
        "TypeScript / JavaScript",
        &TS_SCOPE,
        check("Types and equality", &TS_TYPES),
        Some(check("Asynchronous code and the page", &TS_ASYNC)),
        example(true, "the promise is awaited", "await save(record);"),
        example(false, "a failure of save is never seen", "save(record);"),
    )
}

fn make_python() -> (r: RulePack)
    ensures
        r@ == python_pack(),
{
    pack(
        "python",
        "Python",
        &PYTHON_SCOPE,
        check("Errors and resources", &PYTHON_ERRORS),
        Some(check("Outside input", &PYTHON_INPUT)),
        example(true, "the default is made per call", "def add(x, items=None):"),
        example(false, "all calls share one list", "def add(x, items=[]):"),
    )
}

fn make_ci() -> (r: RulePack)
    ensures
        r@ == ci_pack(),
{
    pack(
        "ci-yaml",
        "CI workflows",
        &CI_SCOPE,
        check("Trust", &CI_TRUST),
        Some(check("Permissions and limits", &CI_SCOPES)),
        example(true, "the token can only read", "permissions: { contents: read }"),
        example(false, "the title runs as a script", "run: echo ${{ github.event.issue.title }}"),
    )
}

fn make_matlab() -> (r: RulePack)
    ensures
        r@ == matlab_pack(),
{
    pack(
        "matlab",
        "MATLAB",
        &MATLAB_SCOPE,
        check("Arrays and numerics", &MATLAB_NUMERICS),
        None,
        example(true, "the array has its size from the start", "y = zeros(1, n);"),
        example(false, "the array is copied in every step", "y(end + 1) = x;"),
    )
}

fn make_objc() -> (r: RulePack)
    ensures
        r@ == objc_pack(),
{
    pack(
        "objc",
        "Objective-C",
        &OBJC_SCOPE,
        check("Memory and messaging", &OBJC_MEMORY),
        None,
        example(true, "the block holds self weakly", "__weak typeof(self) weakSelf = self;"),
        example(false, "self and the block keep each other alive", "self.done = ^{ [self finish]; };"),
    )
}

fn make_fallback() -> (r: RulePack)
    ensures
        r@ == fallback_pack(),
{
    let none: [&'static str; 0] = [];
    let r = pack(
        "default",
        "General",
        &none,
        check("Any change", &DEFAULT_GENERAL),
        None,
        example(true, "the change comes with its test", "a new branch and a test that takes it"),
        example(false, "the failure is only logged", "catch, log, carry on with half a result"),
    );
    assert(text::texts(none@) =~= Seq::empty());
    r
}

/// Every built-in pack, in declaration order.
pub fn packs() -> (r: Vec<RulePack>)
    ensures
        pack_views(r@) == built_in(),
{
    let mut out: Vec<RulePack> = Vec::new();
    out.push(make_rust());
    out.push(make_go());
    out.push(make_ts());
    out.push(make_python());
    out.push(make_ci());
    out.push(make_matlab());
    out.push(make_objc());
    out.push(make_fallback());
    assert(pack_views(out@) =~= built_in());
    out
}

/// The fallback pack, used when nothing matches.
pub fn default_pack() -> (r: RulePack)
    ensures
        r@ == built_in().last(),
{
    make_fallback()
}

// ---------------------------------------------------------------------------
// Facts about the data
// ---------------------------------------------------------------------------

/// No two built-in packs share an id.
pub proof fn law_pack_ids_are_distinct(i: int, j: int)
    requires
        0 <= i < j < built_in().len(),
    ensures
        built_in()[i].id != built_in()[j].id,
{
    reveal_strlit("rust");
    reveal_strlit("go");
    reveal_strlit("ts-js");
    reveal_strlit("python");
    reveal_strlit("ci-yaml");
    reveal_strlit("matlab");
    reveal_strlit("objc");
    reveal_strlit("default");
    let a = built_in()[i].id;
    let b = built_in()[j].id;
    if a.len() == b.len() {
        assert(a[0] != b[0]);
    }
}

/// The packs that claim files have patterns, and only the fallback has none.
pub proof fn law_only_the_fallback_has_no_scope(i: int)
    requires
        0 <= i < built_in().len(),
    ensures
        built_in()[i].scope.len() == 0 <==> i == built_in().len() - 1,
{
}

/// Every built-in pack has checks, and examples of both kinds.
pub proof fn law_packs_have_checks_and_examples(i: int)
    requires
        0 <= i < built_in().len(),
    ensures
        built_in()[i].checks.len() > 0,
        exists|k: int|
            0 <= k < built_in()[i].examples.len() && (
            #[trigger] built_in()[i].examples[k]).positive,
        exists|k: int|
            0 <= k < built_in()[i].examples.len() && !(
            #[trigger] built_in()[i].examples[k]).positive,
{
    assert(built_in()[i].examples[0].positive);
    assert(!built_in()[i].examples[1].positive);
}

} // verus!
