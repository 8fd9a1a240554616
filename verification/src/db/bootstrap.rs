//! How the storage service comes up: the statements of the schema file, and
//! the order of connecting, creating the schema, waiting for the cluster to
//! agree on it and preparing the statements.

use vstd::prelude::*;
use vstd::string::*;

verus! {

/// Whether `c` is white space.
pub uninterp spec fn is_white_space(c: char) -> bool;

/// Calls `char::is_whitespace`, which tells whether a character has the
/// Unicode property `White_Space`.
#[verifier::external_body]
fn char_is_whitespace(c: char) -> (white: bool)
    ensures
        white == is_white_space(c),
{
    c.is_whitespace()
}

/// Calls `String::push`, which appends one character.
#[verifier::external_body]
fn string_push(text: &mut String, c: char)
    ensures
        final(text)@ == old(text)@.push(c),
{
    text.push(c)
}

/// How many characters of white space `text` begins with.
pub open spec fn leading_white(text: Seq<char>) -> nat
    decreases text.len(),
{
    if text.len() > 0 && is_white_space(text.first()) {
        1 + leading_white(text.drop_first())
    } else {
        0
    }
}

/// How many characters of white space `text` ends with.
pub open spec fn trailing_white(text: Seq<char>) -> nat
    decreases text.len(),
{
    if text.len() > 0 && is_white_space(text.last()) {
        1 + trailing_white(text.drop_last())
    } else {
        0
    }
}

/// `text` without the white space it begins and ends with.
pub open spec fn trimmed(text: Seq<char>) -> Seq<char> {
    let rest = text.skip(leading_white(text) as int);
    rest.take(rest.len() - trailing_white(rest))
}

/// The test that keeps every character but the line feed.
pub open spec fn not_line_feed() -> spec_fn(char) -> bool {
    |c: char| c != '\n'
}

/// The pieces of `text` between its semicolons. A text with `n` semicolons
/// has `n + 1` pieces, of which any may be empty.
pub open spec fn pieces(text: Seq<char>) -> Seq<Seq<char>>
    decreases text.len(),
{
    if text.len() == 0 {
        seq![Seq::empty()]
    } else {
        let before = pieces(text.drop_last());
        if text.last() == ';' {
            before.push(Seq::empty())
        } else {
            before.drop_last().push(before.last().push(text.last()))
        }
    }
}

/// The statements among `pieces`: each piece that is not empty, closed by a
/// semicolon.
pub open spec fn statements_among(pieces: Seq<Seq<char>>) -> Seq<Seq<char>>
    decreases pieces.len(),
{
    if pieces.len() == 0 {
        Seq::empty()
    } else if pieces.last().len() > 0 {
        statements_among(pieces.drop_last()).push(pieces.last().push(';'))
    } else {
        statements_among(pieces.drop_last())
    }
}

/// The statements of a schema file: the text is trimmed, its line feeds are
/// taken out, and what is left is cut at the semicolons.
pub open spec fn statements_of(schema: Seq<char>) -> Seq<Seq<char>> {
    statements_among(pieces(trimmed(schema).filter(not_line_feed())))
}

proof fn lemma_leading_white(text: Seq<char>, k: int)
    requires
        0 <= k <= text.len(),
        forall|i: int| 0 <= i < k ==> is_white_space(#[trigger] text[i]),
        k == text.len() || !is_white_space(text[k]),
    ensures
        leading_white(text) == k,
    decreases k,
{
    if k > 0 {
        assert(is_white_space(text[0]));
        let rest = text.drop_first();
        assert forall|i: int| 0 <= i < k - 1 implies is_white_space(#[trigger] rest[i]) by {
            assert(rest[i] == text[i + 1]);
        }
        lemma_leading_white(rest, k - 1);
    }
}

proof fn lemma_trailing_white(text: Seq<char>, k: int)
    requires
        0 <= k <= text.len(),
        forall|i: int| text.len() - k <= i < text.len() ==> is_white_space(#[trigger] text[i]),
        k == text.len() || !is_white_space(text[text.len() - k - 1]),
    ensures
        trailing_white(text) == k,
    decreases k,
{
    if k > 0 {
        assert(is_white_space(text[text.len() - 1]));
        let rest = text.drop_last();
        assert forall|i: int| rest.len() - (k - 1) <= i < rest.len() implies is_white_space(
            #[trigger] rest[i],
        ) by {
            assert(rest[i] == text[i]);
        }
        lemma_trailing_white(rest, k - 1);
    }
}

fn chars_of(text: &str) -> (chars: Vec<char>)
    ensures
        chars@ == text@,
{
    broadcast use vstd::string::group_string_axioms;

    let mut chars: Vec<char> = Vec::new();
    for c in it: text.chars()
        invariant
            it.seq() == text@,
            chars@ == text@.subrange(0, it.index() as int),
    {
        chars.push(c);
        assert(chars@ =~= text@.subrange(0, it.index() + 1));
    }
    assert(chars@ =~= text@);
    chars
}

/// Where the trimmed text begins and ends within the text.
fn trim_bounds(chars: &Vec<char>) -> (bounds: (usize, usize))
    ensures
        bounds.0 <= bounds.1 <= chars.len(),
        trimmed(chars@) == chars@.subrange(bounds.0 as int, bounds.1 as int),
{
    let mut start: usize = 0;
    while start < chars.len() && char_is_whitespace(chars[start])
        invariant
            start <= chars.len(),
            forall|i: int| 0 <= i < start ==> is_white_space(#[trigger] chars@[i]),
        decreases chars.len() - start,
    {
        start += 1;
    }
    let mut end: usize = chars.len();
    while end > start && char_is_whitespace(chars[end - 1])
        invariant
            start <= end <= chars.len(),
            forall|i: int| end <= i < chars.len() ==> is_white_space(#[trigger] chars@[i]),
        decreases end,
    {
        end -= 1;
    }
    proof {
        lemma_leading_white(chars@, start as int);
        let rest = chars@.skip(start as int);
        assert forall|i: int| rest.len() - (chars.len() - end) <= i < rest.len() implies is_white_space(
            #[trigger] rest[i],
        ) by {
            assert(rest[i] == chars@[i + start]);
        }
        if end > start {
            assert(rest[end - start - 1] == chars@[end - 1]);
        }
        lemma_trailing_white(rest, chars.len() - end);
        assert(trimmed(chars@) =~= chars@.subrange(start as int, end as int));
    }
    (start, end)
}

proof fn lemma_pieces_grow(kept: Seq<char>, c: char)
    ensures
        pieces(kept).len() > 0,
        c == ';' ==> pieces(kept.push(c)) == pieces(kept).push(Seq::empty()),
        c != ';' ==> pieces(kept.push(c)) == pieces(kept).drop_last().push(
            pieces(kept).last().push(c),
        ),
    decreases kept.len(),
{
    if kept.len() > 0 {
        lemma_pieces_grow(kept.drop_last(), kept.last());
    }
    assert(kept.push(c).drop_last() =~= kept);
}

proof fn lemma_kept_grows(seen: Seq<char>, c: char)
    ensures
        seen.push(c).filter(not_line_feed()) == if c != '\n' {
            seen.filter(not_line_feed()).push(c)
        } else {
            seen.filter(not_line_feed())
        },
{
    reveal(Seq::filter);
    assert(seen.push(c).drop_last() =~= seen);
}

/// Cuts the text of a schema file into the statements to apply, in their
/// order.
pub fn schema_statements(schema: &str) -> (statements: Vec<String>)
    ensures
        statements.deep_view() == statements_of(schema@),
{
    let chars = chars_of(schema);
    let (start, end) = trim_bounds(&chars);
    let ghost body = chars@.subrange(start as int, end as int);

    let mut statements: Vec<String> = Vec::new();
    let mut current = String::new();
    let mut i: usize = start;
    let ghost kept = Seq::<char>::empty();
    proof {
        reveal(Seq::filter);
        assert(body.subrange(0, 0) =~= kept);
        assert(pieces(kept) =~= seq![Seq::empty()]);
        assert(pieces(kept).drop_last() =~= Seq::empty());
        assert(statements.deep_view() =~= statements_among(pieces(kept).drop_last()));
    }
    while i < end
        invariant
            start <= i <= end <= chars.len(),
            body == chars@.subrange(start as int, end as int),
            kept == body.subrange(0, i - start).filter(not_line_feed()),
            pieces(kept).len() > 0,
            statements.deep_view() == statements_among(pieces(kept).drop_last()),
            current@ == pieces(kept).last(),
        decreases end - i,
    {
        let c = chars[i];
        proof {
            assert(body.subrange(0, i - start + 1) =~= body.subrange(0, i - start).push(c));
            lemma_kept_grows(body.subrange(0, i - start), c);
            lemma_pieces_grow(kept, c);
        }
        if c == ';' {
            let ghost cut = pieces(kept);
            if current.unicode_len() > 0 {
                string_push(&mut current, ';');
                statements.push(current);
            }
            proof {
                assert(cut.push(Seq::empty()).drop_last() =~= cut);
                assert(cut.drop_last().push(cut.last()) =~= cut);
                assert(statements.deep_view() =~= statements_among(cut));
                kept = kept.push(c);
            }
            current = String::new();
        } else if c != '\n' {
            string_push(&mut current, c);
            proof {
                let grown = pieces(kept).drop_last().push(pieces(kept).last().push(c));
                assert(grown.drop_last() =~= pieces(kept).drop_last());
                kept = kept.push(c);
            }
        }
        i += 1;
    }
    proof {
        assert(body.subrange(0, end - start) =~= body);
        assert(pieces(kept).drop_last().push(pieces(kept).last()) =~= pieces(kept));
    }
    if current.unicode_len() > 0 {
        string_push(&mut current, ';');
        statements.push(current);
        assert(statements.deep_view() =~= statements_among(pieces(kept)));
    }
    statements
}

/// How long the service waits for the cluster to agree on the schema.
pub const SCHEMA_AGREEMENT_SECONDS: u64 = 10;

/// Where the service stands on its way up.
#[derive(Clone, Copy, Debug, PartialEq, Eq, Structural)]
pub enum Lifecycle {
    Uninitialized,
    Connecting,
    SchemaBootstrap,
    AwaitingAgreement,
    Ready,
}

impl Lifecycle {
    /// The place of a state in the order in which the states are passed.
    pub open spec fn rank(self) -> nat {
        match self {
            Lifecycle::Uninitialized => 0,
            Lifecycle::Connecting => 1,
            Lifecycle::SchemaBootstrap => 2,
            Lifecycle::AwaitingAgreement => 3,
            Lifecycle::Ready => 4,
        }
    }
}

/// What the driver reports of the work it was asked to do.
#[derive(Debug, Clone, PartialEq, Eq)]
pub enum BootEvent {
    /// The service is to come up.
    Start,
    /// The session is open.
    Connected,
    /// The schema file was read; this is its text.
    SchemaLoaded { text: String },
    /// The statement last asked for was applied.
    StatementApplied,
    /// The wait for schema agreement ended, with or without agreement.
    Agreement { reached: bool },
    /// The statements are prepared.
    Prepared,
    /// What was asked for could not be done.
    Failed,
}

/// What an event holds.
pub enum BootEventView {
    Start,
    Connected,
    SchemaLoaded { text: Seq<char> },
    StatementApplied,
    Agreement { reached: bool },
    Prepared,
    Failed,
}

impl View for BootEvent {
    type V = BootEventView;

    open spec fn view(&self) -> BootEventView {
        match self {
            BootEvent::Start => BootEventView::Start,
            BootEvent::Connected => BootEventView::Connected,
            BootEvent::SchemaLoaded { text } => BootEventView::SchemaLoaded { text: text@ },
            BootEvent::StatementApplied => BootEventView::StatementApplied,
            BootEvent::Agreement { reached } => BootEventView::Agreement { reached: *reached },
            BootEvent::Prepared => BootEventView::Prepared,
            BootEvent::Failed => BootEventView::Failed,
        }
    }
}

/// Why the service cannot come up.
#[derive(Clone, Copy, Debug, PartialEq, Eq, Structural)]
pub enum BootFailure {
    /// No session could be opened.
    Connection,
    /// The schema file could not be read.
    SchemaFile,
    /// A statement of the schema failed.
    SchemaStatement,
    /// The wait for schema agreement failed.
    SchemaAgreement,
    /// The cluster did not agree on the schema in time.
    NoAgreement,
    /// A statement could not be prepared.
    Prepare,
    /// The driver reported what it was not asked for.
    OutOfTurn,
}

/// What the driver is to do next.
#[derive(Debug, Clone, PartialEq, Eq)]
pub enum BootAction {
    /// Open a session to `host`, routed by token within the datacenter
    /// `dc`, with LZ4 compression.
    Connect { host: String, dc: String },
    /// Read the schema file at `path`.
    LoadSchema { path: String },
    /// Apply one statement of the schema.
    Apply { statement: String },
    /// Wait, for so many seconds at most, until the cluster agrees on the
    /// schema.
    AwaitAgreement { seconds: u64 },
    /// Prepare each [`PreparedStatement`](crate::db::scylladb::PreparedStatement)
    /// at its consistency.
    Prepare,
    /// The service is up.
    Serve,
    /// The service cannot come up; the process ends.
    Abort { failure: BootFailure },
}

/// What an action holds.
pub enum BootActionView {
    Connect { host: Seq<char>, dc: Seq<char> },
    LoadSchema { path: Seq<char> },
    Apply { statement: Seq<char> },
    AwaitAgreement { seconds: u64 },
    Prepare,
    Serve,
    Abort { failure: BootFailure },
}

impl View for BootAction {
    type V = BootActionView;

    open spec fn view(&self) -> BootActionView {
        match self {
            BootAction::Connect { host, dc } => BootActionView::Connect { host: host@, dc: dc@ },
            BootAction::LoadSchema { path } => BootActionView::LoadSchema { path: path@ },
            BootAction::Apply { statement } => BootActionView::Apply { statement: statement@ },
            BootAction::AwaitAgreement { seconds } => BootActionView::AwaitAgreement {
                seconds: *seconds,
            },
            BootAction::Prepare => BootActionView::Prepare,
            BootAction::Serve => BootActionView::Serve,
            BootAction::Abort { failure } => BootActionView::Abort { failure: *failure },
        }
    }
}

/// The state of the service on its way up.
pub struct BootstrapView {
    pub state: Lifecycle,
    pub dc: Seq<char>,
    pub host: Seq<char>,
    pub schema_file: Seq<char>,
    /// The statements of the schema, once the file is read.
    pub statements: Option<Seq<Seq<char>>>,
    /// How many of them are applied.
    pub applied: nat,
    /// Whether the cluster agreed and the statements are being prepared.
    pub preparing: bool,
}

/// After the schema file is read or a statement applied: the next statement
/// is applied, or, where none is left, the wait for agreement begins.
pub open spec fn after_applied(state: BootstrapView, statements: Seq<Seq<char>>, applied: nat) -> (
    BootstrapView,
    BootActionView,
) {
    if applied < statements.len() {
        (
            BootstrapView { statements: Some(statements), applied, ..state },
            BootActionView::Apply { statement: statements[applied as int] },
        )
    } else {
        (
            BootstrapView {
                state: Lifecycle::AwaitingAgreement,
                statements: Some(statements),
                applied,
                ..state
            },
            BootActionView::AwaitAgreement { seconds: SCHEMA_AGREEMENT_SECONDS },
        )
    }
}

/// The service stays where it is and gives up.
pub open spec fn aborted(state: BootstrapView, failure: BootFailure) -> (
    BootstrapView,
    BootActionView,
) {
    (state, BootActionView::Abort { failure })
}

/// One step on the way up. The states are passed in their order; any
/// failure, and any report that was not asked for, ends the way.
pub open spec fn boot_step(state: BootstrapView, event: BootEventView) -> (
    BootstrapView,
    BootActionView,
) {
    match state.state {
        Lifecycle::Uninitialized => match event {
            BootEventView::Start => (
                BootstrapView { state: Lifecycle::Connecting, ..state },
                BootActionView::Connect { host: state.host, dc: state.dc },
            ),
            _ => aborted(state, BootFailure::OutOfTurn),
        },
        Lifecycle::Connecting => match event {
            BootEventView::Connected => (
                BootstrapView { state: Lifecycle::SchemaBootstrap, ..state },
                BootActionView::LoadSchema { path: state.schema_file },
            ),
            BootEventView::Failed => aborted(state, BootFailure::Connection),
            _ => aborted(state, BootFailure::OutOfTurn),
        },
        Lifecycle::SchemaBootstrap => match (state.statements, event) {
            (None, BootEventView::SchemaLoaded { text }) => after_applied(
                state,
                statements_of(text),
                0,
            ),
            (None, BootEventView::Failed) => aborted(state, BootFailure::SchemaFile),
            (Some(statements), BootEventView::StatementApplied) => after_applied(
                state,
                statements,
                state.applied + 1,
            ),
            (Some(_), BootEventView::Failed) => aborted(state, BootFailure::SchemaStatement),
            _ => aborted(state, BootFailure::OutOfTurn),
        },
        Lifecycle::AwaitingAgreement => match (state.preparing, event) {
            (false, BootEventView::Agreement { reached: true }) => (
                BootstrapView { preparing: true, ..state },
                BootActionView::Prepare,
            ),
            (false, BootEventView::Agreement { reached: false }) => aborted(
                state,
                BootFailure::NoAgreement,
            ),
            (false, BootEventView::Failed) => aborted(state, BootFailure::SchemaAgreement),
            (true, BootEventView::Prepared) => (
                BootstrapView { state: Lifecycle::Ready, ..state },
                BootActionView::Serve,
            ),
            (true, BootEventView::Failed) => aborted(state, BootFailure::Prepare),
            _ => aborted(state, BootFailure::OutOfTurn),
        },
        Lifecycle::Ready => aborted(state, BootFailure::OutOfTurn),
    }
}

/// The way up never goes back, skips no state, and leaves the service where
/// it is when it gives up. Only the report that the statements are prepared,
/// given after the cluster agreed, makes the service ready.
pub proof fn lemma_lifecycle_moves_forward(state: BootstrapView, event: BootEventView)
    ensures
        ({
            let (next, action) = boot_step(state, event);
            &&& state.state.rank() <= next.state.rank() <= state.state.rank() + 1
            &&& action is Abort ==> next == state
            &&& next.state == Lifecycle::Ready && state.state != Lifecycle::Ready ==> {
                &&& state.state == Lifecycle::AwaitingAgreement
                &&& state.preparing
                &&& event is Prepared
                &&& action is Serve
            }
        }),
{
}

/// The service on its way up.
pub struct Bootstrap {
    state: Lifecycle,
    dc: String,
    host: String,
    schema_file: String,
    statements: Option<Vec<String>>,
    applied: usize,
    preparing: bool,
}

impl View for Bootstrap {
    type V = BootstrapView;

    closed spec fn view(&self) -> BootstrapView {
        BootstrapView {
            state: self.state,
            dc: self.dc@,
            host: self.host@,
            schema_file: self.schema_file@,
            statements: self.statements.deep_view(),
            applied: self.applied as nat,
            preparing: self.preparing,
        }
    }
}

impl Bootstrap {
    #[verifier::type_invariant]
    spec fn sound(&self) -> bool {
        match self.statements {
            Some(statements) => {
                &&& self.state.rank() >= Lifecycle::SchemaBootstrap.rank()
                &&& self.state == Lifecycle::SchemaBootstrap ==> self.applied < statements.len()
            },
            None => true,
        }
    }

    /// A service that has not begun to come up.
    pub fn new(dc: String, host: String, schema_file: String) -> (service: Bootstrap)
        ensures
            service@ == (BootstrapView {
                state: Lifecycle::Uninitialized,
                dc: dc@,
                host: host@,
                schema_file: schema_file@,
                statements: None,
                applied: 0,
                preparing: false,
            }),
    {
        Bootstrap {
            state: Lifecycle::Uninitialized,
            dc,
            host,
            schema_file,
            statements: None,
            applied: 0,
            preparing: false,
        }
    }

    /// Where the service stands.
    pub fn state(&self) -> (state: Lifecycle)
        ensures
            state == self@.state,
    {
        self.state
    }

    fn abort(self, failure: BootFailure) -> (next: (Bootstrap, BootAction))
        ensures
            (next.0@, next.1@) == aborted(self@, failure),
    {
        (self, BootAction::Abort { failure })
    }

    fn apply_next(self, statements: Vec<String>, applied: usize) -> (next: (Bootstrap, BootAction))
        requires
            self@.state == Lifecycle::SchemaBootstrap,
        ensures
            (next.0@, next.1@) == after_applied(self@, statements.deep_view(), applied as nat),
    {
        if applied < statements.len() {
            let statement = statements[applied].clone();
            (
                Bootstrap { statements: Some(statements), applied, ..self },
                BootAction::Apply { statement },
            )
        } else {
            (
                Bootstrap {
                    state: Lifecycle::AwaitingAgreement,
                    statements: Some(statements),
                    applied,
                    ..self
                },
                BootAction::AwaitAgreement { seconds: SCHEMA_AGREEMENT_SECONDS },
            )
        }
    }

    /// Takes the report of the driver and says what to do next.
    pub fn step(self, event: BootEvent) -> (next: (Bootstrap, BootAction))
        ensures
            (next.0@, next.1@) == boot_step(self@, event@),
    {
        proof {
            use_type_invariant(&self);
        }
        match self.state {
            Lifecycle::Uninitialized => match event {
                BootEvent::Start => {
                    let action = BootAction::Connect {
                        host: self.host.clone(),
                        dc: self.dc.clone(),
                    };
                    (Bootstrap { state: Lifecycle::Connecting, ..self }, action)
                },
                _ => self.abort(BootFailure::OutOfTurn),
            },
            Lifecycle::Connecting => match event {
                BootEvent::Connected => {
                    let action = BootAction::LoadSchema { path: self.schema_file.clone() };
                    (Bootstrap { state: Lifecycle::SchemaBootstrap, ..self }, action)
                },
                BootEvent::Failed => self.abort(BootFailure::Connection),
                _ => self.abort(BootFailure::OutOfTurn),
            },
            Lifecycle::SchemaBootstrap => {
                let Bootstrap { state, dc, host, schema_file, statements, applied, preparing } = self;
                let rest = Bootstrap {
                    state,
                    dc,
                    host,
                    schema_file,
                    statements: None,
                    applied,
                    preparing,
                };
                match (statements, event) {
                    (None, BootEvent::SchemaLoaded { text }) => {
                        let statements = schema_statements(text.as_str());
                        rest.apply_next(statements, 0)
                    },
                    (None, BootEvent::Failed) => rest.abort(BootFailure::SchemaFile),
                    (Some(statements), BootEvent::StatementApplied) => {
                        rest.apply_next(statements, applied + 1)
                    },
                    (Some(statements), BootEvent::Failed) => {
                        Bootstrap { statements: Some(statements), ..rest }.abort(
                            BootFailure::SchemaStatement,
                        )
                    },
                    (statements, _) => {
                        Bootstrap { statements, ..rest }.abort(BootFailure::OutOfTurn)
                    },
                }
            },
            Lifecycle::AwaitingAgreement => match (self.preparing, event) {
                (false, BootEvent::Agreement { reached: true }) => (
                    Bootstrap { preparing: true, ..self },
                    BootAction::Prepare,
                ),
                (false, BootEvent::Agreement { reached: false }) => self.abort(
                    BootFailure::NoAgreement,
                ),
                (false, BootEvent::Failed) => self.abort(BootFailure::SchemaAgreement),
                (true, BootEvent::Prepared) => (
                    Bootstrap { state: Lifecycle::Ready, ..self },
                    BootAction::Serve,
                ),
                (true, BootEvent::Failed) => self.abort(BootFailure::Prepare),
                _ => self.abort(BootFailure::OutOfTurn),
            },
            Lifecycle::Ready => self.abort(BootFailure::OutOfTurn),
        }
    }
}

} // verus!
