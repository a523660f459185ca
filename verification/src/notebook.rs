//! What a notebook holds: cells, and the outputs that running a code cell left.

use vstd::prelude::*;

verus! {

/// A JSON value, carried through as it was loaded.
#[verifier::external_type_specification]
#[verifier::external_body]
pub struct ExJsonValue(serde_json::Value);

/// A copy of a JSON value is equal to it.
pub assume_specification[ <serde_json::Value as Clone>::clone ](value: &serde_json::Value) -> (r:
    serde_json::Value)
    ensures
        r == *value,
;

/// The stream that a piece of text was written to.
#[derive(Clone, Copy, Debug, PartialEq, Eq, Structural)]
pub enum StreamType {
    StdOut,
    StdErr,
}

/// One representation of a rich output.
#[derive(Debug)]
pub enum OutputValue {
    /// Plain text, in pieces.
    Plain(Vec<String>),
    /// A base64 encoded image.
    Image(String),
    /// SVG source.
    Svg(String),
    /// A JSON value.
    Json(serde_json::Value),
    /// Literal HTML.
    Html(String),
    /// JavaScript source.
    Javascript(String),
}

/// What running a code cell left behind.
#[derive(Debug)]
pub enum CellOutput {
    /// Text written to a stream.
    Stream { name: StreamType, text: String },
    /// A rich output in one or more representations.
    Data { execution_count: Option<i64>, data: Vec<OutputValue> },
    /// An error.
    Error { ename: String, evalue: String, traceback: Vec<String> },
}

/// What all cells have.
#[derive(Clone, Debug, Default)]
pub struct CellCommon {
    pub source: String,
}

/// A notebook cell.
#[derive(Clone, Debug)]
pub enum Cell {
    Markdown { common: CellCommon },
    Code { common: CellCommon, execution_count: Option<i64>, outputs: Vec<CellOutput> },
    Raw { common: CellCommon },
}

/// A notebook: its cells in order.
#[derive(Clone, Debug, Default)]
pub struct Notebook {
    pub cells: Vec<Cell>,
}

/// The texts of `v`.
pub open spec fn strings_view(v: Seq<String>) -> Seq<Seq<char>> {
    Seq::new(v.len(), |k: int| v[k]@)
}

/// The text of an optional string.
pub open spec fn option_view(s: Option<String>) -> Option<Seq<char>> {
    match s {
        Some(s) => Some(s@),
        None => None,
    }
}

/// What an `OutputValue` holds.
pub enum OutputValueView {
    Plain(Seq<Seq<char>>),
    Image(Seq<char>),
    Svg(Seq<char>),
    Json(serde_json::Value),
    Html(Seq<char>),
    Javascript(Seq<char>),
}

/// What a `CellOutput` holds.
pub enum CellOutputView {
    Stream { name: StreamType, text: Seq<char> },
    Data { execution_count: Option<i64>, data: Seq<OutputValueView> },
    Error { ename: Seq<char>, evalue: Seq<char>, traceback: Seq<Seq<char>> },
}

impl View for OutputValue {
    type V = OutputValueView;

    open spec fn view(&self) -> OutputValueView {
        match *self {
            OutputValue::Plain(v) => OutputValueView::Plain(strings_view(v@)),
            OutputValue::Image(s) => OutputValueView::Image(s@),
            OutputValue::Svg(s) => OutputValueView::Svg(s@),
            OutputValue::Json(j) => OutputValueView::Json(j),
            OutputValue::Html(s) => OutputValueView::Html(s@),
            OutputValue::Javascript(s) => OutputValueView::Javascript(s@),
        }
    }
}

/// What the output values of `v` hold.
pub open spec fn values_view(v: Seq<OutputValue>) -> Seq<OutputValueView> {
    Seq::new(v.len(), |k: int| v[k]@)
}

impl View for CellOutput {
    type V = CellOutputView;

    open spec fn view(&self) -> CellOutputView {
        match *self {
            CellOutput::Stream { name, text } => CellOutputView::Stream { name, text: text@ },
            CellOutput::Data { execution_count, data } => CellOutputView::Data {
                execution_count,
                data: values_view(data@),
            },
            CellOutput::Error { ename, evalue, traceback } => CellOutputView::Error {
                ename: ename@,
                evalue: evalue@,
                traceback: strings_view(traceback@),
            },
        }
    }
}

/// What the outputs of `v` hold.
pub open spec fn outputs_view(v: Seq<CellOutput>) -> Seq<CellOutputView> {
    Seq::new(v.len(), |k: int| v[k]@)
}

/// A copy of `v`, string by string.
pub fn clone_strings(v: &Vec<String>) -> (r: Vec<String>)
    ensures
        strings_view(r@) == strings_view(v@),
{
    let mut r: Vec<String> = Vec::new();
    let mut k: usize = 0;
    while k < v.len()
        invariant
            k <= v.len(),
            r.len() == k,
            forall|j: int| 0 <= j < k ==> r[j]@ == v[j]@,
        decreases v.len() - k,
    {
        r.push(v[k].clone());
        k += 1;
    }
    assert(strings_view(r@) =~= strings_view(v@));
    r
}

/// A copy of an optional string.
pub fn clone_option(s: &Option<String>) -> (r: Option<String>)
    ensures
        option_view(r) == option_view(*s),
{
    match s {
        Some(s) => Some(s.clone()),
        None => None,
    }
}

impl Clone for OutputValue {
    fn clone(&self) -> (r: Self)
        ensures
            r@ == self@,
    {
        match self {
            OutputValue::Plain(v) => OutputValue::Plain(clone_strings(v)),
            OutputValue::Image(s) => OutputValue::Image(s.clone()),
            OutputValue::Svg(s) => OutputValue::Svg(s.clone()),
            OutputValue::Json(j) => OutputValue::Json(j.clone()),
            OutputValue::Html(s) => OutputValue::Html(s.clone()),
            OutputValue::Javascript(s) => OutputValue::Javascript(s.clone()),
        }
    }
}

/// A copy of `v`, value by value.
pub fn clone_values(v: &Vec<OutputValue>) -> (r: Vec<OutputValue>)
    ensures
        values_view(r@) == values_view(v@),
{
    let mut r: Vec<OutputValue> = Vec::new();
    let mut k: usize = 0;
    while k < v.len()
        invariant
            k <= v.len(),
            r.len() == k,
            forall|j: int| 0 <= j < k ==> r[j]@ == v[j]@,
        decreases v.len() - k,
    {
        r.push(v[k].clone());
        k += 1;
    }
    assert(values_view(r@) =~= values_view(v@));
    r
}

impl Clone for CellOutput {
    fn clone(&self) -> (r: Self)
        ensures
            r@ == self@,
    {
        match self {
            CellOutput::Stream { name, text } => CellOutput::Stream {
                name: *name,
                text: text.clone(),
            },
            CellOutput::Data { execution_count, data } => CellOutput::Data {
                execution_count: *execution_count,
                data: clone_values(data),
            },
            CellOutput::Error { ename, evalue, traceback } => CellOutput::Error {
                ename: ename.clone(),
                evalue: evalue.clone(),
                traceback: clone_strings(traceback),
            },
        }
    }
}

/// A copy of `v`, output by output.
pub fn clone_outputs(v: &Vec<CellOutput>) -> (r: Vec<CellOutput>)
    ensures
        outputs_view(r@) == outputs_view(v@),
{
    let mut r: Vec<CellOutput> = Vec::new();
    let mut k: usize = 0;
    while k < v.len()
        invariant
            k <= v.len(),
            r.len() == k,
            forall|j: int| 0 <= j < k ==> r[j]@ == v[j]@,
        decreases v.len() - k,
    {
        r.push(v[k].clone());
        k += 1;
    }
    assert(outputs_view(r@) =~= outputs_view(v@));
    r
}

/// The texts of `v`, one behind the other.
pub open spec fn texts_joined(v: Seq<Seq<char>>) -> Seq<char>
    decreases v.len(),
{
    if v.len() == 0 {
        Seq::empty()
    } else {
        texts_joined(v.drop_last()) + v.last()
    }
}

/// The strings of `v`, one behind the other.
pub fn join_strings(v: &Vec<String>) -> (r: String)
    ensures
        r@ == texts_joined(strings_view(v@)),
{
    let mut r = String::new();
    let mut k: usize = 0;
    assert(strings_view(v@).subrange(0, 0) =~= Seq::<Seq<char>>::empty());
    while k < v.len()
        invariant
            k <= v.len(),
            r@ == texts_joined(strings_view(v@).subrange(0, k as int)),
        decreases v.len() - k,
    {
        r.append(v[k].as_str());
        proof {
            let all = strings_view(v@);
            assert(all.subrange(0, k + 1).drop_last() =~= all.subrange(0, k as int));
        }
        k += 1;
    }
    assert(strings_view(v@).subrange(0, k as int) =~= strings_view(v@));
    r
}

} // verus!
