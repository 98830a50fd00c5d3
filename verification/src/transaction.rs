//! Ordered atomic writes across tables, assembled as pure step data.
//!
//! Each step's expression bindings are isolated from every other step's, so
//! placeholders may be reused freely across steps; only an update sharing a
//! placeholder with its own condition is an error. Condition failures are
//! interpreted by label rather than by position, so inserting an optional
//! step never shifts the meaning of a cancellation.

use crate::attr::AttributeValue;
use crate::dict::StrMap;
use crate::error::{error_text, Error};
use crate::expression::{collision_report, Bindings, BindingsView, Expression};
use crate::key::{document_key, key_document, Parts};
use crate::write::{
    collides, document_view, expression_view, present_map, text_view, update_request_view,
    DeleteRequest, DeleteRequestView, PutRequest, PutRequestView, UpdateRequest,
    UpdateRequestView,
};
use vstd::prelude::*;

verus! {

/// The cancellation reason code of a rejected condition.
pub open spec fn condition_failed() -> Seq<char> {
    "ConditionalCheckFailed"@
}

/// The text standing for the debug rendering of a list of optional codes.
pub uninterp spec fn codes_debug_text(codes: Seq<Option<Seq<char>>>) -> Seq<char>;

/// The views of a list of optional codes.
pub open spec fn codes_view(codes: Seq<Option<String>>) -> Seq<Option<Seq<char>>> {
    codes.map_values(|c: Option<String>| text_view(c))
}

/// Renders a list of optional codes as std's `Debug` does
/// (`format!("{:?}")`). The contract claims only that the text is a fixed
/// function of the codes' contents.
#[verifier::external_body]
fn debug_codes(codes: &Vec<Option<String>>) -> (r: String)
    ensures
        r@ == codes_debug_text(codes_view(codes@)),
{
    format!("{:?}", codes)
}

/// What a transaction failure stands for.
pub enum FailureView {
    Invalid(Seq<char>),
    Canceled { labels: Map<Seq<char>, usize>, reasons: Seq<Option<Seq<char>>> },
    Database(Error),
    Unavailable(Seq<char>),
}

/// Why a transaction failed to assemble or run.
#[derive(Debug)]
enum TransactionFailure {
    /// The steps were assembled wrongly.
    Invalid(String),
    /// DynamoDB canceled the transaction; `reasons` holds one code per step.
    Canceled { labels: StrMap<usize>, reasons: Vec<Option<String>> },
    /// Serializing a value failed.
    Database(Error),
    /// The request failed for another reason.
    Unavailable(String),
}

impl View for TransactionFailure {
    type V = FailureView;

    closed spec fn view(&self) -> FailureView {
        match self {
            TransactionFailure::Invalid(d) => FailureView::Invalid(d@),
            TransactionFailure::Canceled { labels, reasons } => FailureView::Canceled {
                labels: labels@,
                reasons: codes_view(reasons@),
            },
            TransactionFailure::Database(e) => FailureView::Database(*e),
            TransactionFailure::Unavailable(d) => FailureView::Unavailable(d@),
        }
    }
}

/// The text a transaction failure is displayed as.
pub open spec fn failure_text(f: FailureView) -> Seq<char> {
    match f {
        FailureView::Invalid(d) => "invalid transaction: "@ + d,
        FailureView::Canceled { reasons, .. } => "transaction canceled: "@ + codes_debug_text(
            reasons,
        ),
        FailureView::Database(e) => error_text(e),
        FailureView::Unavailable(d) => "database unavailable: "@ + d,
    }
}

/// Whether the step labeled `label` canceled the transaction with a
/// rejected condition.
pub open spec fn failed_with(f: FailureView, label: Seq<char>) -> bool {
    match f {
        FailureView::Canceled { labels, reasons } => {
            &&& labels.contains_key(label)
            &&& labels[label] < reasons.len()
            &&& reasons[labels[label] as int] == Some(condition_failed())
        },
        _ => false,
    }
}

/// Why a transaction failed to assemble or run.
#[derive(Debug)]
pub struct TransactionError(TransactionFailure);

impl View for TransactionError {
    type V = FailureView;

    closed spec fn view(&self) -> FailureView {
        self.0@
    }
}

/// Builds the text `a` + `b`.
fn concat(a: &str, b: &str) -> (r: String)
    ensures
        r@ == a@ + b@,
{
    let mut r = a.to_owned();
    r.append(b);
    r
}

impl TransactionError {
    /// Whether the step labeled `label` canceled the transaction with a
    /// rejected condition.
    ///
    /// Unlabeled steps cannot be interrogated, and anything other than a
    /// cancellation — assembly errors, transport failures — returns `false`.
    pub fn failed(&self, label: &str) -> (r: bool)
        ensures
            r == failed_with(self@, label@),
    {
        match &self.0 {
            TransactionFailure::Canceled { labels, reasons } => match labels.get(label) {
                Some(index) => {
                    if *index < reasons.len() {
                        match &reasons[*index] {
                            Some(code) => code.clone() == "ConditionalCheckFailed".to_owned(),
                            None => false,
                        }
                    } else {
                        false
                    }
                },
                None => false,
            },
            _ => false,
        }
    }

    /// An assembly error.
    pub fn invalid(detail: &str) -> (e: Self)
        ensures
            e@ == FailureView::Invalid(detail@),
    {
        TransactionError(TransactionFailure::Invalid(detail.to_owned()))
    }

    /// A serialization error.
    pub fn database(error: Error) -> (e: Self)
        ensures
            e@ == FailureView::Database(error),
    {
        TransactionError(TransactionFailure::Database(error))
    }

    /// A transport or service failure, carrying its displayed text.
    pub fn unavailable<T: std::fmt::Display>(error: T) -> (e: Self)
        ensures
            e@ matches FailureView::Unavailable(text) && exists|s: String|
                s@ == text && vstd::string::to_string_from_display_ensures::<T>(&error, s),
    {
        let s = error.to_string();
        TransactionError(TransactionFailure::Unavailable(s))
    }

    /// A cancellation: `reasons` holds the code DynamoDB reported for each
    /// step, and `labels` the position of each labeled step.
    pub fn canceled(reasons: Vec<Option<String>>, labels: StrMap<usize>) -> (e: Self)
        ensures
            e@ == (FailureView::Canceled { labels: labels@, reasons: codes_view(reasons@) }),
    {
        TransactionError(TransactionFailure::Canceled { labels, reasons })
    }

    /// The text this error is displayed as.
    pub fn message(&self) -> (r: String)
        ensures
            r@ == failure_text(self@),
    {
        match &self.0 {
            TransactionFailure::Invalid(d) => concat("invalid transaction: ", d.as_str()),
            TransactionFailure::Canceled { reasons, .. } => {
                let codes = debug_codes(reasons);
                concat("transaction canceled: ", codes.as_str())
            },
            TransactionFailure::Database(e) => e.message(),
            TransactionFailure::Unavailable(d) => concat("database unavailable: ", d.as_str()),
        }
    }

    /// The crate-wide error this failure maps to: a serialization error as
    /// it was, anything else as [`Error::Unavailable`] with its displayed
    /// text.
    pub fn into_error(self) -> (e: Error)
        ensures
            match self@ {
                FailureView::Database(inner) => e == inner,
                f => e matches Error::Unavailable(text) && text@ == failure_text(f),
            },
    {
        let text = self.message();
        match self.0 {
            TransactionFailure::Database(inner) => inner,
            _ => Error::Unavailable(text),
        }
    }
}

/// What a step's write stands for.
pub enum ActionView {
    Put { table: Seq<char>, document: Map<Seq<char>, AttributeValue> },
    Update { table: Seq<char>, key: Map<Seq<char>, AttributeValue>, expression: BindingsView },
    Delete { table: Seq<char>, key: Map<Seq<char>, AttributeValue> },
}

/// The write a step performs.
#[derive(Debug)]
pub enum Action {
    Put { table: String, document: StrMap<AttributeValue> },
    Update { table: String, key: StrMap<AttributeValue>, expression: Expression },
    Delete { table: String, key: StrMap<AttributeValue> },
}

impl View for Action {
    type V = ActionView;

    open spec fn view(&self) -> ActionView {
        match self {
            Action::Put { table, document } => ActionView::Put {
                table: table@,
                document: document@,
            },
            Action::Update { table, key, expression } => ActionView::Update {
                table: table@,
                key: key@,
                expression: expression@,
            },
            Action::Delete { table, key } => ActionView::Delete { table: table@, key: key@ },
        }
    }
}

/// What a step stands for.
pub struct StepView {
    pub action: ActionView,
    pub condition: Option<BindingsView>,
    pub label: Option<Seq<char>>,
}

/// One write of a transaction, with its optional condition and label.
#[derive(Debug)]
pub struct Step {
    action: Action,
    condition: Option<Expression>,
    label: Option<&'static str>,
}

/// The view of an optional label.
pub open spec fn label_view(l: Option<&'static str>) -> Option<Seq<char>> {
    match l {
        Some(s) => Some(s@),
        None => None,
    }
}

impl View for Step {
    type V = StepView;

    closed spec fn view(&self) -> StepView {
        StepView {
            action: self.action@,
            condition: expression_view(self.condition),
            label: label_view(self.label),
        }
    }
}

/// What a transaction write request stands for.
pub enum WriteView {
    Put(PutRequestView),
    Update(UpdateRequestView),
    Delete(DeleteRequestView),
}

/// One write request of a transaction.
#[derive(Debug)]
pub enum Write {
    Put(PutRequest),
    Update(UpdateRequest),
    Delete(DeleteRequest),
}

impl View for Write {
    type V = WriteView;

    open spec fn view(&self) -> WriteView {
        match self {
            Write::Put(p) => WriteView::Put(p@),
            Write::Update(u) => WriteView::Update(u@),
            Write::Delete(d) => WriteView::Delete(d@),
        }
    }
}

/// The request a step compiles to: its own bindings only.
pub open spec fn step_write(step: StepView) -> WriteView {
    let condition = match step.condition {
        Some(c) => Some(c.statement),
        None => None,
    };
    let names = match step.condition {
        Some(c) => present_map(c.names),
        None => None,
    };
    let values = match step.condition {
        Some(c) => present_map(c.values),
        None => None,
    };
    match step.action {
        ActionView::Put { table, document } => WriteView::Put(
            PutRequestView { table, item: document, condition, names, values },
        ),
        ActionView::Update { table, key, expression } => WriteView::Update(
            update_request_view(table, key, expression, step.condition, false),
        ),
        ActionView::Delete { table, key } => WriteView::Delete(
            DeleteRequestView { table, key, condition, names, values },
        ),
    }
}

/// The position of each labeled step.
pub open spec fn label_positions(steps: Seq<StepView>) -> Map<Seq<char>, usize>
    decreases steps.len(),
{
    if steps.len() == 0 {
        Map::empty()
    } else {
        let rest = label_positions(steps.drop_last());
        match steps.last().label {
            Some(l) => rest.insert(l, (steps.len() - 1) as usize),
            None => rest,
        }
    }
}

/// No label names two steps.
pub open spec fn labels_unique(steps: Seq<StepView>) -> bool {
    forall|i: int, j: int|
        0 <= i < j < steps.len() && steps[i].label is Some ==> steps[i].label != steps[j].label
}

/// What a transaction stands for: its steps in order, and the first
/// assembly problem met, if any.
pub struct TransactionView {
    pub steps: Seq<StepView>,
    pub problem: Option<Seq<char>>,
}

/// An order-preserving builder of DynamoDB transactional writes.
#[derive(Debug)]
pub struct Transaction {
    steps: Vec<Step>,
    problem: Option<String>,
}

/// The views of a list of steps.
pub open spec fn steps_view(steps: Seq<Step>) -> Seq<StepView> {
    steps.map_values(|s: Step| s@)
}

impl View for Transaction {
    type V = TransactionView;

    closed spec fn view(&self) -> TransactionView {
        TransactionView { steps: steps_view(self.steps@), problem: text_view(self.problem) }
    }
}

/// The detail of a condition with no step before it.
pub open spec fn orphan_condition_text() -> Seq<char> {
    "a condition requires a preceding step"@
}

/// The detail of a second condition on one step.
pub open spec fn second_step_condition_text() -> Seq<char> {
    "a transaction step cannot have more than one condition"@
}

/// The detail of a label used twice.
pub open spec fn duplicate_label_text(label: Seq<char>) -> Seq<char> {
    "duplicate transaction label: "@ + label
}

/// The detail of a label with no step before it.
pub open spec fn orphan_label_text() -> Seq<char> {
    "a label requires a preceding step"@
}

/// The detail of a second label on one step.
pub open spec fn second_label_text() -> Seq<char> {
    "a transaction step cannot have more than one label"@
}

/// The detail of a transaction with no step.
pub open spec fn empty_transaction_text() -> Seq<char> {
    "a transaction requires at least one step"@
}

/// How attaching `condition` settles: ignored after a problem, a problem
/// when there is no step, when the last step has a condition, or when the
/// last step is an update sharing a placeholder with it; otherwise the last
/// step carries it.
pub open spec fn when_settles(t: TransactionView, condition: BindingsView, r: TransactionView) -> bool {
    if t.problem is Some {
        r == t
    } else if t.steps.len() == 0 {
        r == TransactionView { steps: t.steps, problem: Some(orphan_condition_text()) }
    } else {
        let last = t.steps.last();
        if last.condition is Some {
            r == TransactionView { steps: t.steps, problem: Some(second_step_condition_text()) }
        } else if last.action is Update && collides(last.action->expression, condition) {
            &&& r.steps == t.steps
            &&& r.problem matches Some(detail) && collision_report(
                last.action->expression,
                condition,
                Some(detail),
            )
        } else {
            r == TransactionView {
                steps: t.steps.update(
                    t.steps.len() - 1,
                    StepView { condition: Some(condition), ..last },
                ),
                problem: None,
            }
        }
    }
}

/// How naming the last step settles: ignored after a problem, a problem
/// when the label is taken, when there is no step, or when the last step
/// has a label; otherwise the last step carries it.
pub open spec fn label_settles(t: TransactionView, label: Seq<char>, r: TransactionView) -> bool {
    if t.problem is Some {
        r == t
    } else if exists|i: int| 0 <= i < t.steps.len() && t.steps[i].label == Some(label) {
        r == TransactionView { steps: t.steps, problem: Some(duplicate_label_text(label)) }
    } else if t.steps.len() == 0 {
        r == TransactionView { steps: t.steps, problem: Some(orphan_label_text()) }
    } else if t.steps.last().label is Some {
        r == TransactionView { steps: t.steps, problem: Some(second_label_text()) }
    } else {
        r == TransactionView {
            steps: t.steps.update(
                t.steps.len() - 1,
                StepView { label: Some(label), ..t.steps.last() },
            ),
            problem: None,
        }
    }
}

/// How appending a step settles: the recorded problem, or the step added
/// at the end.
pub open spec fn append_settles(
    t: TransactionView,
    action: ActionView,
    r: Result<TransactionView, FailureView>,
) -> bool {
    match t.problem {
        Some(p) => r == Err::<TransactionView, FailureView>(FailureView::Invalid(p)),
        None => r == Ok::<TransactionView, FailureView>(
            TransactionView {
                steps: t.steps.push(StepView { action, condition: None, label: None }),
                problem: None,
            },
        ),
    }
}

/// The view of a transaction, or of the error assembling it.
pub open spec fn transaction_result(r: Result<Transaction, TransactionError>) -> Result<
    TransactionView,
    FailureView,
> {
    match r {
        Ok(t) => Ok(t@),
        Err(e) => Err(e@),
    }
}

/// What a compiled transaction stands for.
pub struct RequestView {
    pub labels: Map<Seq<char>, usize>,
    pub writes: Seq<WriteView>,
}

/// The compiled transaction: one write per step, in step order, and the
/// position of each labeled step.
#[derive(Debug)]
pub struct Request {
    pub labels: StrMap<usize>,
    pub writes: Vec<Write>,
}

impl View for Request {
    type V = RequestView;

    open spec fn view(&self) -> RequestView {
        RequestView { labels: self.labels@, writes: self.writes@.map_values(|w: Write| w@) }
    }
}

/// How compiling a transaction settles: the recorded problem, an empty
/// transaction, or one write per step in order with the labels' positions.
pub open spec fn request_settles(t: TransactionView, r: Result<RequestView, FailureView>) -> bool {
    match t.problem {
        Some(p) => r == Err::<RequestView, FailureView>(FailureView::Invalid(p)),
        None => if t.steps.len() == 0 {
            r == Err::<RequestView, FailureView>(FailureView::Invalid(empty_transaction_text()))
        } else {
            r == Ok::<RequestView, FailureView>(
                RequestView {
                    labels: label_positions(t.steps),
                    writes: t.steps.map_values(|s: StepView| step_write(s)),
                },
            )
        },
    }
}

/// The view of a compiled transaction, or of the error compiling it.
pub open spec fn request_result(r: Result<Request, TransactionError>) -> Result<RequestView, FailureView> {
    match r {
        Ok(q) => Ok(q@),
        Err(e) => Err(e@),
    }
}

impl Step {
    /// A step performing `action`, with no condition or label.
    fn new(action: Action) -> (s: Self)
        ensures
            s@ == (StepView { action: action@, condition: None, label: None }),
    {
        Step { action, condition: None, label: None }
    }

    /// The request this step compiles to.
    fn write(self) -> (w: Write)
        ensures
            w@ == step_write(self@),
    {
        let Step { action, condition, .. } = self;
        match action {
            Action::Put { table, document } => {
                let (text, names, values) = crate::write::condition_parts(condition);
                Write::Put(PutRequest { table, item: document, condition: text, names, values })
            },
            Action::Update { table, key, expression } => {
                let (update, text, names, values) = crate::write::combine(
                    expression.into_bindings(),
                    condition,
                );
                Write::Update(
                    UpdateRequest {
                        table,
                        key,
                        update,
                        condition: text,
                        names,
                        values,
                        return_all_new: false,
                    },
                )
            },
            Action::Delete { table, key } => {
                let (text, names, values) = crate::write::condition_parts(condition);
                Write::Delete(DeleteRequest { table, key, condition: text, names, values })
            },
        }
    }
}

/// The detail of a failed step operation, if it failed.
pub open spec fn opt_detail(r: Result<(), String>) -> Option<Seq<char>> {
    match r {
        Ok(()) => None,
        Err(d) => Some(d@),
    }
}

/// How attaching `condition` to one step settles.
pub open spec fn step_when_settles(
    s: StepView,
    condition: BindingsView,
    r: StepView,
    detail: Option<Seq<char>>,
) -> bool {
    if s.condition is Some {
        r == s && detail == Some(second_step_condition_text())
    } else if s.action is Update && collides(s.action->expression, condition) {
        r == s && detail is Some && collision_report(s.action->expression, condition, detail)
    } else {
        r == StepView { condition: Some(condition), ..s } && detail is None
    }
}

impl Step {
    /// Attaches `condition` to this step, unless it already has one or it
    /// is an update sharing a placeholder with the condition.
    fn when(&mut self, condition: Expression) -> (r: Result<(), String>)
        ensures
            step_when_settles(old(self)@, condition@, final(self)@, opt_detail(r)),
    {
        if self.condition.is_some() {
            return Err("a transaction step cannot have more than one condition".to_owned());
        }
        if let Action::Update { expression, .. } = &self.action {
            if let Some(collision) = expression.bindings().collision(condition.bindings()) {
                return Err(collision);
            }
        }
        self.condition = Some(condition);
        Ok(())
    }
}

impl Transaction {
    #[verifier::type_invariant]
    spec fn labels_distinct(self) -> bool {
        labels_unique(steps_view(self.steps@))
    }

    /// Creates an empty transaction; no client is involved until it is sent.
    pub fn new() -> (t: Self)
        ensures
            t@ == (TransactionView { steps: Seq::empty(), problem: None }),
    {
        let t = Transaction { steps: Vec::new(), problem: None };
        assert(t@.steps =~= Seq::<StepView>::empty());
        t
    }

    /// Gives the transaction back, or the recorded problem as an error.
    fn ready(self) -> (r: Result<Self, TransactionError>)
        ensures
            match self@.problem {
                Some(p) => r matches Err(e) && e@ == FailureView::Invalid(p),
                None => r matches Ok(t) && t@ == self@,
            },
    {
        match self.problem {
            Some(problem) => Err(TransactionError::invalid(problem.as_str())),
            None => Ok(self),
        }
    }

    /// Appends a step after checking for a recorded problem.
    fn append(self, action: Action) -> (r: Result<Self, TransactionError>)
        ensures
            append_settles(self@, action@, transaction_result(r)),
            r matches Ok(t) ==> labels_unique(t@.steps),
    {
        proof {
            use_type_invariant(&self);
        }
        let t = match self.ready() {
            Ok(t) => t,
            Err(e) => return Err(e),
        };
        let Transaction { mut steps, problem } = t;
        let ghost before = steps_view(steps@);
        let step = Step::new(action);
        steps.push(step);
        assert(steps_view(steps@) =~= before.push(
            StepView { action: action@, condition: None, label: None },
        ));
        let t = Transaction { steps, problem };
        proof {
            use_type_invariant(&t);
        }
        Ok(t)
    }

    /// Appends a step that stores the whole `document` (or the error met
    /// serializing it), with the key attributes of `key` written over it, in
    /// `table`.
    pub fn put(self, table: &str, document: Result<StrMap<AttributeValue>, Error>, key: Parts) -> (r:
        Result<Self, TransactionError>)
        ensures
            match (self@.problem, document_view(document)) {
                (Some(p), _) => transaction_result(r) == Err::<TransactionView, FailureView>(
                    FailureView::Invalid(p),
                ),
                (None, Err(e)) => transaction_result(r) == Err::<TransactionView, FailureView>(
                    FailureView::Database(e),
                ),
                (None, Ok(doc)) => append_settles(
                    self@,
                    ActionView::Put {
                        table: table@,
                        document: doc.union_prefer_right(key_document(key)),
                    },
                    transaction_result(r),
                ),
            },
            r matches Ok(t) ==> labels_unique(t@.steps),
    {
        let t = match self.ready() {
            Ok(t) => t,
            Err(e) => return Err(e),
        };
        let mut document = match document {
            Ok(d) => d,
            Err(e) => return Err(TransactionError::database(e)),
        };
        document.extend(document_key(key));
        t.append(Action::Put { table: table.to_owned(), document })
    }

    /// Appends a step that applies `expression` to the item at `key` in
    /// `table`.
    pub fn update(self, table: &str, key: Parts, expression: Expression) -> (r: Result<
        Self,
        TransactionError,
    >)
        ensures
            append_settles(
                self@,
                ActionView::Update {
                    table: table@,
                    key: key_document(key),
                    expression: expression@,
                },
                transaction_result(r),
            ),
            r matches Ok(t) ==> labels_unique(t@.steps),
    {
        self.append(Action::Update { table: table.to_owned(), key: document_key(key), expression })
    }

    /// Appends a step that removes the item at `key` in `table`.
    pub fn delete(self, table: &str, key: Parts) -> (r: Result<Self, TransactionError>)
        ensures
            append_settles(
                self@,
                ActionView::Delete { table: table@, key: key_document(key) },
                transaction_result(r),
            ),
            r matches Ok(t) ==> labels_unique(t@.steps),
    {
        self.append(Action::Delete { table: table.to_owned(), key: document_key(key) })
    }

    /// Attaches a condition to the last step.
    ///
    /// Each step carries at most one condition, and an update may not share a
    /// placeholder with its own condition. Assembly errors surface at the
    /// next fallible step or when the transaction is compiled.
    pub fn when(self, condition: Expression) -> (t: Self)
        ensures
            when_settles(self@, condition@, t@),
            labels_unique(t@.steps),
    {
        proof {
            use_type_invariant(&self);
        }
        if self.problem.is_some() {
            return self;
        }
        let Transaction { mut steps, problem } = self;
        let ghost before = steps_view(steps@);
        match steps.pop() {
            None => {
                let t = Transaction {
                    steps,
                    problem: Some("a condition requires a preceding step".to_owned()),
                };
                assert(t@.steps =~= before);
                t
            },
            Some(mut step) => {
                assert(steps_view(steps@) =~= before.drop_last());
                assert(step@ == before.last());
                let ghost old_step = step@;
                let outcome = step.when(condition);
                let ghost new_step = step@;
                steps.push(step);
                match outcome {
                    Ok(()) => {
                        assert(steps_view(steps@) =~= before.update(
                            before.len() - 1,
                            StepView { condition: Some(condition@), ..old_step },
                        ));
                        let t = Transaction { steps, problem: None };
                        t
                    },
                    Err(detail) => {
                        assert(new_step == old_step);
                        assert(steps_view(steps@) =~= before);
                        let t = Transaction { steps, problem: Some(detail) };
                        t
                    },
                }
            },
        }
    }

    /// Whether some step carries `label`.
    fn labeled(steps: &Vec<Step>, label: &'static str) -> (r: bool)
        ensures
            r == exists|i: int|
                0 <= i < steps@.len() && steps_view(steps@)[i].label == Some(label@),
    {
        let wanted = label.to_owned();
        let mut i: usize = 0;
        while i < steps.len()
            invariant
                wanted@ == label@,
                i <= steps@.len(),
                forall|j: int| 0 <= j < i ==> steps_view(steps@)[j].label != Some(label@),
            decreases steps.len() - i,
        {
            if let Some(l) = steps[i].label {
                if l.to_owned() == wanted {
                    assert(steps_view(steps@)[i as int].label == Some(label@));
                    return true;
                }
            }
            assert(steps_view(steps@)[i as int].label != Some(label@));
            i = i + 1;
        }
        false
    }

    /// Names the last step so a cancellation can be interrogated with
    /// [`TransactionError::failed`].
    ///
    /// Labels must be unique within the transaction. Assembly errors surface
    /// at the next fallible step or when the transaction is compiled.
    pub fn label(self, label: &'static str) -> (t: Self)
        ensures
            label_settles(self@, label@, t@),
            labels_unique(t@.steps),
    {
        proof {
            use_type_invariant(&self);
        }
        if self.problem.is_some() {
            return self;
        }
        if Self::labeled(&self.steps, label) {
            let Transaction { steps, problem } = self;
            let detail = concat("duplicate transaction label: ", label);
            return Transaction { steps, problem: Some(detail) };
        }
        let Transaction { mut steps, problem } = self;
        let ghost before = steps_view(steps@);
        match steps.pop() {
            None => {
                let t = Transaction {
                    steps,
                    problem: Some("a label requires a preceding step".to_owned()),
                };
                assert(t@.steps =~= before);
                t
            },
            Some(mut step) => {
                assert(steps_view(steps@) =~= before.drop_last());
                assert(step@ == before.last());
                if step.label.is_some() {
                    steps.push(step);
                    assert(steps_view(steps@) =~= before);
                    return Transaction {
                        steps,
                        problem: Some(
                            "a transaction step cannot have more than one label".to_owned(),
                        ),
                    };
                }
                let ghost old_step = step@;
                step.label = Some(label);
                steps.push(step);
                let ghost after = steps_view(steps@);
                assert(after =~= before.update(
                    before.len() - 1,
                    StepView { label: Some(label@), ..old_step },
                ));
                assert(labels_unique(after)) by {
                    assert forall|i: int, j: int|
                        0 <= i < j < after.len() && after[i].label is Some implies after[i].label
                        != after[j].label by {
                        if j == after.len() - 1 {
                            assert(after[i] == before[i]);
                        } else {
                            assert(after[i] == before[i] && after[j] == before[j]);
                        }
                    }
                }
                Transaction { steps, problem: None }
            },
        }
    }

    /// Compiles the steps into one write each, in order, with the position
    /// of each labeled step; or the recorded problem, or the error of an
    /// empty transaction.
    pub fn request(self) -> (r: Result<Request, TransactionError>)
        ensures
            request_settles(self@, request_result(r)),
    {
        let ghost view = self@;
        let Transaction { mut steps, problem } = self;
        if let Some(problem) = problem {
            return Err(TransactionError::invalid(problem.as_str()));
        }
        if steps.len() == 0 {
            return Err(TransactionError::invalid("a transaction requires at least one step"));
        }
        let ghost all = steps_view(steps@);
        let mut labels: StrMap<usize> = StrMap::new();
        let mut writes: Vec<Write> = Vec::new();
        let mut index: usize = 0;
        assert(all.skip(0) =~= all);
        assert(label_positions(all.take(0)) =~= Map::<Seq<char>, usize>::empty());
        while steps.len() > 0
            invariant
                all.len() <= usize::MAX,
                index + steps@.len() == all.len(),
                steps_view(steps@) == all.skip(index as int),
                labels@ == label_positions(all.take(index as int)),
                writes@.map_values(|w: Write| w@) == all.take(index as int).map_values(
                    |s: StepView| step_write(s),
                ),
            decreases steps.len(),
        {
            let ghost old_steps = steps@;
            let step = steps.remove(0);
            assert(steps_view(old_steps)[0] == old_steps[0]@);
            assert(all.skip(index as int)[0] == all[index as int]);
            assert(step@ == all[index as int]);
            assert(steps@ =~= old_steps.subrange(1, old_steps.len() as int));
            assert forall|k: int| 0 <= k < steps@.len() implies steps_view(steps@)[k] == all.skip(
                index + 1,
            )[k] by {
                assert(steps_view(old_steps)[k + 1] == old_steps[k + 1]@);
                assert(all.skip(index as int)[k + 1] == all.skip(index + 1)[k]);
            }
            assert(steps_view(steps@) =~= all.skip(index + 1));
            assert(all.take(index + 1).drop_last() =~= all.take(index as int));
            if let Some(label) = step.label {
                labels.insert(label.to_owned(), index);
            }
            let ghost prev = writes@;
            let w = step.write();
            writes.push(w);
            assert(writes@.map_values(|w: Write| w@) =~= all.take(index + 1).map_values(
                |s: StepView| step_write(s),
            )) by {
                assert(writes@ =~= prev.push(w));
                assert(writes@.map_values(|w: Write| w@) =~= prev.map_values(|w: Write| w@).push(
                    w@,
                ));
                assert(all.take(index + 1) =~= all.take(index as int).push(all[index as int]));
                assert(all.take(index + 1).map_values(|s: StepView| step_write(s))
                    =~= all.take(index as int).map_values(|s: StepView| step_write(s)).push(
                    step_write(all[index as int]),
                ));
            }
            index = index + 1;
        }
        assert(all.take(index as int) =~= all);
        Ok(Request { labels, writes })
    }
}

/// Each label of a transaction whose labels are unique stands for the
/// position of the one step that carries it, and no other label is known.
pub proof fn law_labels_locate_steps(steps: Seq<StepView>)
    requires
        labels_unique(steps),
        steps.len() <= usize::MAX,
    ensures
        forall|l: Seq<char>|
            label_positions(steps).contains_key(l) <==> exists|i: int|
                0 <= i < steps.len() && steps[i].label == Some(l),
        forall|i: int|
            0 <= i < steps.len() && steps[i].label is Some ==> label_positions(steps)[steps[i].label->0]
                == i,
    decreases steps.len(),
{
    if steps.len() > 0 {
        let rest = steps.drop_last();
        assert(labels_unique(rest));
        law_labels_locate_steps(rest);
        assert forall|l: Seq<char>|
            label_positions(steps).contains_key(l) <==> exists|i: int|
                0 <= i < steps.len() && steps[i].label == Some(l) by {
            if label_positions(rest).contains_key(l) {
                let i = choose|i: int| 0 <= i < rest.len() && rest[i].label == Some(l);
                assert(steps[i].label == Some(l));
            }
            if exists|i: int| 0 <= i < steps.len() && steps[i].label == Some(l) {
                let i = choose|i: int| 0 <= i < steps.len() && steps[i].label == Some(l);
                if i < steps.len() - 1 {
                    assert(rest[i].label == Some(l));
                }
            }
        }
        assert forall|i: int|
            0 <= i < steps.len() && steps[i].label is Some implies label_positions(
                steps,
            )[steps[i].label->0] == i by {
            if i < steps.len() - 1 {
                assert(rest[i] == steps[i]);
                assert(label_positions(rest)[steps[i].label->0] == i);
                assert(steps[i].label != steps.last().label);
                match steps.last().label {
                    Some(l2) => {
                        assert(l2 != steps[i].label->0);
                        assert(label_positions(steps) == label_positions(rest).insert(
                            l2,
                            (steps.len() - 1) as usize,
                        ));
                    },
                    None => {
                        assert(label_positions(steps) == label_positions(rest));
                    },
                }
            } else {
                assert(steps.last().label == steps[i].label);
            }
        }
    }
}

/// Appending steps never changes the position a label already stands for,
/// so an optional later step does not shift how a cancellation is read.
pub proof fn law_appended_steps_keep_labels(steps: Seq<StepView>, more: Seq<StepView>)
    requires
        labels_unique(steps + more),
        steps.len() + more.len() <= usize::MAX,
    ensures
        forall|l: Seq<char>|
            label_positions(steps).contains_key(l) ==> label_positions(steps + more).contains_key(
                l,
            ) && label_positions(steps + more)[l] == label_positions(steps)[l],
{
    let all = steps + more;
    assert(labels_unique(steps)) by {
        assert forall|i: int, j: int|
            0 <= i < j < steps.len() && steps[i].label is Some implies steps[i].label
            != steps[j].label by {
            assert(all[i] == steps[i] && all[j] == steps[j]);
        }
    }
    law_labels_locate_steps(steps);
    law_labels_locate_steps(all);
    assert forall|l: Seq<char>| label_positions(steps).contains_key(l) implies label_positions(
        all,
    ).contains_key(l) && label_positions(all)[l] == label_positions(steps)[l] by {
        let i = choose|i: int| 0 <= i < steps.len() && steps[i].label == Some(l);
        assert(all[i] == steps[i]);
    }
}

/// After a cancellation of the compiled steps, `failed(label)` holds exactly
/// when some step carries `label` and that step's reason is a rejected
/// condition.
pub proof fn law_failed_reads_the_labeled_step(
    steps: Seq<StepView>,
    reasons: Seq<Option<Seq<char>>>,
    label: Seq<char>,
)
    requires
        labels_unique(steps),
        reasons.len() == steps.len(),
        steps.len() <= usize::MAX,
    ensures
        failed_with(FailureView::Canceled { labels: label_positions(steps), reasons }, label)
            <==> exists|i: int|
            0 <= i < steps.len() && steps[i].label == Some(label) && reasons[i] == Some(
                condition_failed(),
            ),
{
    law_labels_locate_steps(steps);
    if exists|i: int|
        0 <= i < steps.len() && steps[i].label == Some(label) && reasons[i] == Some(
            condition_failed(),
        ) {
        let i = choose|i: int|
            0 <= i < steps.len() && steps[i].label == Some(label) && reasons[i] == Some(
                condition_failed(),
            );
        assert(label_positions(steps)[label] == i);
    }
    if failed_with(FailureView::Canceled { labels: label_positions(steps), reasons }, label) {
        let i = choose|i: int| 0 <= i < steps.len() && steps[i].label == Some(label);
        assert(label_positions(steps)[label] == i);
    }
}

/// Placeholders are scoped to their step: a condition attached to the last
/// step is refused only when that step already has one or is an update
/// binding one of the condition's placeholders, whatever other steps bind;
/// and each compiled write carries its own step's bindings alone.
pub proof fn law_placeholders_are_per_step(
    t: TransactionView,
    condition: BindingsView,
    after: TransactionView,
    r: Result<RequestView, FailureView>,
)
    requires
        t.problem is None,
        t.steps.len() > 0,
        t.steps.last().condition is None,
        !(t.steps.last().action is Update && collides(t.steps.last().action->expression, condition)),
        when_settles(t, condition, after),
        request_settles(after, r),
    ensures
        after.problem is None,
        r matches Ok(req) && {
            &&& req.writes.len() == t.steps.len()
            &&& forall|i: int|
                0 <= i < t.steps.len() - 1 ==> req.writes[i] == step_write(#[trigger] t.steps[i])
            &&& req.writes[t.steps.len() - 1] == step_write(
                StepView { condition: Some(condition), ..t.steps.last() },
            )
        },
{
    let last = t.steps.len() - 1;
    assert(after.steps[last] == StepView { condition: Some(condition), ..t.steps.last() });
    assert forall|i: int| 0 <= i < t.steps.len() - 1 implies after.steps[i] == #[trigger] t.steps[i] by {
    }
}

/// The condition statement a write carries.
pub open spec fn write_condition(w: WriteView) -> Option<Seq<char>> {
    match w {
        WriteView::Put(p) => p.condition,
        WriteView::Update(u) => u.condition,
        WriteView::Delete(d) => d.condition,
    }
}

/// The name placeholders a write binds.
pub open spec fn write_names(w: WriteView) -> Option<Map<Seq<char>, Seq<char>>> {
    match w {
        WriteView::Put(p) => p.names,
        WriteView::Update(u) => u.names,
        WriteView::Delete(d) => d.names,
    }
}

/// The value placeholders a write binds.
pub open spec fn write_values(w: WriteView) -> Option<Map<Seq<char>, AttributeValue>> {
    match w {
        WriteView::Put(p) => p.values,
        WriteView::Update(u) => u.values,
        WriteView::Delete(d) => d.values,
    }
}

/// Whether `w` carries the condition of `step`: the condition's statement,
/// and each placeholder the condition binds, bound to the same name or
/// value; without a condition the write is unconditional, and a put or
/// delete then binds no placeholder.
pub open spec fn carries_condition(step: StepView, w: WriteView) -> bool {
    match step.condition {
        Some(c) => {
            &&& write_condition(w) == Some(c.statement)
            &&& forall|p: Seq<char>|
                #[trigger] c.names.contains_key(p) ==> (write_names(w) matches Some(ns)
                    && ns.contains_key(p) && ns[p] == c.names[p])
            &&& forall|p: Seq<char>|
                #[trigger] c.values.contains_key(p) ==> (write_values(w) matches Some(vs)
                    && vs.contains_key(p) && vs[p] == c.values[p])
        },
        None => {
            &&& write_condition(w) is None
            &&& !(step.action is Update) ==> (write_names(w) is None && write_values(w) is None)
        },
    }
}

/// Every compiled write carries its own step's condition, whatever its
/// action is.
pub proof fn law_writes_carry_their_step_conditions(
    t: TransactionView,
    r: Result<RequestView, FailureView>,
)
    requires
        request_settles(t, r),
        r is Ok,
    ensures
        r matches Ok(req) && req.writes.len() == t.steps.len() && forall|i: int|
            0 <= i < t.steps.len() ==> carries_condition(t.steps[i], #[trigger] req.writes[i]),
{
    let req = r->Ok_0;
    assert forall|i: int| 0 <= i < t.steps.len() implies carries_condition(
        t.steps[i],
        #[trigger] req.writes[i],
    ) by {
        let step = t.steps[i];
        let w = req.writes[i];
        assert(w == step_write(step));
        if let Some(c) = step.condition {
            assert forall|p: Seq<char>| #[trigger] c.names.contains_key(p) implies (write_names(
                w,
            ) matches Some(ns) && ns.contains_key(p) && ns[p] == c.names[p]) by {
                assert(c.names.dom().contains(p));
                assert(c.names != Map::<Seq<char>, Seq<char>>::empty());
                if let ActionView::Update { expression, .. } = step.action {
                    let u = expression.names.union_prefer_right(c.names);
                    assert(u.contains_key(p));
                    assert(u != Map::<Seq<char>, Seq<char>>::empty());
                }
            }
            assert forall|p: Seq<char>| #[trigger] c.values.contains_key(p) implies (write_values(
                w,
            ) matches Some(vs) && vs.contains_key(p) && vs[p] == c.values[p]) by {
                assert(c.values.dom().contains(p));
                assert(c.values != Map::<Seq<char>, AttributeValue>::empty());
                if let ActionView::Update { expression, .. } = step.action {
                    let u = expression.values.union_prefer_right(c.values);
                    assert(u.contains_key(p));
                    assert(u != Map::<Seq<char>, AttributeValue>::empty());
                }
            }
        }
    }
}

} // verus!
