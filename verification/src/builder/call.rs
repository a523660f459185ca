//! The text of a shortcode call: `name(arg1, key2=val2)`, with an optional
//! `#id` behind the name. An argument is named where it begins with a key and
//! `=`; its value may stand in double quotes.

use crate::builder::text::{
    chars_from, is_space, skip_space, skip_spaces, space,
    string_from, trim, trim_back, trim_end, trimmed,
};
use vstd::prelude::*;
use vstd::string::*;

verus! {

/// An argument as it was written: its key, where it has one, and the text of
/// its value.
#[derive(Clone, Debug)]
pub struct RawArgument {
    pub key: Option<String>,
    pub value: Vec<char>,
}

/// A call as it was written.
#[derive(Clone, Debug)]
pub struct Call {
    pub name: String,
    pub id: Option<String>,
    pub args: Vec<RawArgument>,
}

/// What a `RawArgument` holds.
pub struct RawArgumentView {
    pub key: Option<Seq<char>>,
    pub value: Seq<char>,
}

/// What a `Call` holds.
pub struct CallView {
    pub name: Seq<char>,
    pub id: Option<Seq<char>>,
    pub args: Seq<RawArgumentView>,
}

impl View for RawArgument {
    type V = RawArgumentView;

    open spec fn view(&self) -> RawArgumentView {
        RawArgumentView { key: crate::notebook::option_view(self.key), value: self.value@ }
    }
}

/// What the arguments of `v` hold.
pub open spec fn raw_arguments_view(v: Seq<RawArgument>) -> Seq<RawArgumentView> {
    Seq::new(v.len(), |k: int| v[k]@)
}

impl View for Call {
    type V = CallView;

    open spec fn view(&self) -> CallView {
        CallView {
            name: self.name@,
            id: crate::notebook::option_view(self.id),
            args: raw_arguments_view(self.args@),
        }
    }
}

/// A character that ends a name: white space, `(` or `#`.
pub open spec fn ends_name(c: char) -> bool {
    is_space(c) || c == '(' || c == '#'
}

/// A character that ends an id: white space or `(`.
pub open spec fn ends_id(c: char) -> bool {
    is_space(c) || c == '('
}

/// The end of the name that begins at `i`.
pub open spec fn name_end(s: Seq<char>, i: int) -> int
    decreases s.len() - i,
{
    if 0 <= i < s.len() && !ends_name(s[i]) {
        name_end(s, i + 1)
    } else {
        i
    }
}

/// The end of the id that begins at `i`.
pub open spec fn id_end(s: Seq<char>, i: int) -> int
    decreases s.len() - i,
{
    if 0 <= i < s.len() && !ends_id(s[i]) {
        id_end(s, i + 1)
    } else {
        i
    }
}

/// A character of a key: a letter, a digit of ASCII, `_` or `-`.
pub open spec fn is_key_char(c: char) -> bool {
    ('a' <= c && c <= 'z') || ('A' <= c && c <= 'Z') || ('0' <= c && c <= '9') || c == '_' || c
        == '-'
}

/// The end of the key that begins at `i`.
pub open spec fn key_end(s: Seq<char>, i: int) -> int
    decreases s.len() - i,
{
    if 0 <= i < s.len() && is_key_char(s[i]) {
        key_end(s, i + 1)
    } else {
        i
    }
}

/// The end of the argument that the scan at `i` is inside of: the next comma
/// outside quotes and parentheses, or the end of the text. `depth` counts the
/// parentheses that are open and `quoted` says whether a quote is.
pub open spec fn argument_end(s: Seq<char>, i: int, depth: nat, quoted: bool) -> int
    decreases s.len() - i,
{
    if 0 <= i < s.len() {
        let c = s[i];
        if c == '"' {
            argument_end(s, i + 1, depth, !quoted)
        } else if quoted {
            argument_end(s, i + 1, depth, quoted)
        } else if c == '(' {
            argument_end(s, i + 1, depth + 1, quoted)
        } else if c == ')' {
            argument_end(
                s,
                i + 1,
                if depth > 0 {
                    (depth - 1) as nat
                } else {
                    0
                },
                quoted,
            )
        } else if c == ',' && depth == 0 {
            i
        } else {
            argument_end(s, i + 1, depth, quoted)
        }
    } else {
        i
    }
}

/// The argument ends at or behind the scan, inside the text.
pub proof fn lemma_argument_end(s: Seq<char>, i: int, depth: nat, quoted: bool)
    requires
        0 <= i <= s.len(),
    ensures
        i <= argument_end(s, i, depth, quoted) <= s.len(),
    decreases s.len() - i,
{
    if i < s.len() {
        let c = s[i];
        if c == '"' {
            lemma_argument_end(s, i + 1, depth, !quoted);
        } else if quoted {
            lemma_argument_end(s, i + 1, depth, quoted);
        } else if c == '(' {
            lemma_argument_end(s, i + 1, depth + 1, quoted);
        } else if c == ')' {
            lemma_argument_end(
                s,
                i + 1,
                if depth > 0 {
                    (depth - 1) as nat
                } else {
                    0
                },
                quoted,
            );
        } else if c == ',' && depth == 0 {
        } else {
            lemma_argument_end(s, i + 1, depth, quoted);
        }
    }
}

/// The text of a value: trimmed, and without the double quotes around it
/// where it stands in quotes.
pub open spec fn value_text(v: Seq<char>) -> Seq<char> {
    let w = trimmed(v);
    if w.len() >= 2 && w[0] == '"' && w[w.len() - 1] == '"' {
        w.subrange(1, w.len() - 1)
    } else {
        w
    }
}

/// The argument that the text `piece` is: named where it begins with a key
/// that `=` follows, else by position.
pub open spec fn raw_argument(piece: Seq<char>) -> RawArgumentView {
    let p = trimmed(piece);
    let k = key_end(p, 0);
    let e = skip_spaces(p, k);
    if 0 < k && e < p.len() && p[e] == '=' {
        RawArgumentView { key: Some(p.subrange(0, k)), value: value_text(p.subrange(e + 1, p.len() as int)) }
    } else {
        RawArgumentView { key: None, value: value_text(p) }
    }
}

/// The arguments of the text `s` from `i` on, split at the commas that stand
/// outside quotes and parentheses.
pub open spec fn arguments_from(s: Seq<char>, i: int) -> Seq<RawArgumentView>
    decreases s.len() - i,
{
    if 0 <= i <= s.len() {
        let e = argument_end(s, i, 0, false);
        if i <= e < s.len() {
            seq![raw_argument(s.subrange(i, e))] + arguments_from(s, e + 1)
        } else {
            seq![raw_argument(s.subrange(i, s.len() as int))]
        }
    } else {
        Seq::empty()
    }
}

/// The arguments of the text between the parentheses of a call: none where
/// the text is white space only.
pub open spec fn arguments_of(s: Seq<char>) -> Seq<RawArgumentView> {
    if trimmed(s).len() == 0 {
        Seq::empty()
    } else {
        arguments_from(s, 0)
    }
}

/// Arguments are by position until the first named one and named from there
/// on: no argument by position follows a named argument.
pub open spec fn keywords_last(args: Seq<RawArgumentView>) -> bool {
    forall|i: int|
        0 <= i && i + 1 < args.len() && (#[trigger] args[i]).key is Some ==> args[i + 1].key is Some
}

/// The call that the text `s` is: a name, an id behind `#` where there is one,
/// and arguments in parentheses where there are any. `None` where the name is
/// empty, where something other than the arguments follows the name, where
/// the parentheses are not closed at the end of the text, and where an
/// argument by position follows a named one.
pub open spec fn parse_call(s: Seq<char>) -> Option<CallView> {
    let start = skip_spaces(s, 0);
    let name_stop = name_end(s, start);
    let has_id = name_stop < s.len() && s[name_stop] == '#';
    let id_stop = if has_id {
        id_end(s, name_stop + 1)
    } else {
        name_stop
    };
    let id = if has_id {
        Some(s.subrange(name_stop + 1, id_stop))
    } else {
        None
    };
    let open = skip_spaces(s, id_stop);
    let stop = trim_end(s, open, s.len() as int);
    if name_stop == start {
        None
    } else if open >= s.len() {
        Some(CallView { name: s.subrange(start, name_stop), id, args: Seq::empty() })
    } else if s[open] == '(' && open + 1 < stop && s[stop - 1] == ')' && keywords_last(
        arguments_of(s.subrange(open + 1, stop - 1)),
    ) {
        Some(
            CallView {
                name: s.subrange(start, name_stop),
                id,
                args: arguments_of(s.subrange(open + 1, stop - 1)),
            },
        )
    } else {
        None
    }
}

/// Does no argument by position follow a named one?
fn ordered(args: &Vec<RawArgument>) -> (r: bool)
    ensures
        r == keywords_last(raw_arguments_view(args@)),
{
    let ghost views = raw_arguments_view(args@);
    let mut i: usize = 0;
    if args.len() == 0 {
        return true;
    }
    while i < args.len() - 1
        invariant
            args.len() > 0,
            views == raw_arguments_view(args@),
            forall|j: int|
                0 <= j < i && j + 1 < views.len() && (#[trigger] views[j]).key is Some ==> views[j
                    + 1].key is Some,
        decreases args.len() - i,
    {
        let named = match &args[i].key {
            Some(_) => true,
            None => false,
        };
        let next_named = match &args[i + 1].key {
            Some(_) => true,
            None => false,
        };
        if named && !next_named {
            assert(views[i as int].key is Some && views[i + 1].key is None);
            return false;
        }
        i += 1;
    }
    true
}

/// Is `c` a character of a key?
fn key_char(c: char) -> (r: bool)
    ensures
        r == is_key_char(c),
{
    ('a' <= c && c <= 'z') || ('A' <= c && c <= 'Z') || ('0' <= c && c <= '9') || c == '_' || c
        == '-'
}

/// The text of a value.
fn value_of(v: &Vec<char>) -> (r: Vec<char>)
    ensures
        r@ == value_text(v@),
{
    let w = trim(v);
    let n = w.len();
    if n >= 2 && w[0] == '"' && w[n - 1] == '"' {
        chars_from(&w, 1, n - 1)
    } else {
        w
    }
}

/// The argument that the text `piece` is.
fn argument_of(piece: &Vec<char>) -> (r: RawArgument)
    ensures
        r@ == raw_argument(piece@),
{
    let p = trim(piece);
    let mut k: usize = 0;
    while k < p.len() && key_char(p[k])
        invariant
            k <= p.len(),
            key_end(p@, 0) == key_end(p@, k as int),
        decreases p.len() - k,
    {
        k += 1;
    }
    let e = skip_space(&p, k);
    if 0 < k && e < p.len() && p[e] == '=' {
        let rest = chars_from(&p, e + 1, p.len());
        RawArgument { key: Some(string_from(&p, 0, k)), value: value_of(&rest) }
    } else {
        RawArgument { key: None, value: value_of(&p) }
    }
}

/// The end of the argument that begins at `i`.
fn find_argument_end(s: &Vec<char>, i: usize) -> (r: usize)
    requires
        i <= s.len(),
    ensures
        r == argument_end(s@, i as int, 0, false),
        i <= r <= s.len(),
{
    let mut j = i;
    let mut depth: usize = 0;
    let mut quoted = false;
    proof {
        lemma_argument_end(s@, i as int, 0, false);
    }
    while j < s.len()
        invariant
            i <= j <= s.len(),
            depth <= j,
            argument_end(s@, i as int, 0, false) == argument_end(
                s@,
                j as int,
                depth as nat,
                quoted,
            ),
        decreases s.len() - j,
    {
        let c = s[j];
        if c == '"' {
            quoted = !quoted;
        } else if quoted {
        } else if c == '(' {
            depth = depth + 1;
        } else if c == ')' {
            if depth > 0 {
                depth = depth - 1;
            }
        } else if c == ',' && depth == 0 {
            return j;
        }
        j += 1;
    }
    j
}

/// The arguments of the text between the parentheses of a call.
fn split_arguments(s: &Vec<char>) -> (r: Vec<RawArgument>)
    ensures
        raw_arguments_view(r@) == arguments_of(s@),
{
    let mut r: Vec<RawArgument> = Vec::new();
    if trim(s).len() == 0 {
        assert(raw_arguments_view(r@) =~= Seq::<RawArgumentView>::empty());
        return r;
    }
    let mut i: usize = 0;
    assert(raw_arguments_view(r@) =~= Seq::<RawArgumentView>::empty());
    loop
        invariant
            i <= s.len(),
            trimmed(s@).len() != 0,
            arguments_from(s@, 0) == raw_arguments_view(r@) + arguments_from(s@, i as int),
        decreases s.len() - i,
    {
        let e = find_argument_end(s, i);
        let ghost before = raw_arguments_view(r@);
        if e < s.len() {
            let piece = chars_from(s, i, e);
            r.push(argument_of(&piece));
            proof {
                assert(raw_arguments_view(r@) =~= before + seq![raw_argument(s@.subrange(i as int, e as int))]);
                assert(before + (seq![raw_argument(s@.subrange(i as int, e as int))]
                    + arguments_from(s@, e + 1)) =~= (before + seq![
                    raw_argument(s@.subrange(i as int, e as int)),
                ]) + arguments_from(s@, e + 1));
            }
            i = e + 1;
        } else {
            let piece = chars_from(s, i, s.len());
            r.push(argument_of(&piece));
            proof {
                assert(raw_arguments_view(r@) =~= before + seq![
                    raw_argument(s@.subrange(i as int, s@.len() as int)),
                ]);
            }
            return r;
        }
    }
}

/// The call that the text `s` is, or `None` where it is none.
pub fn parse(s: &Vec<char>) -> (r: Option<Call>)
    ensures
        match parse_call(s@) {
            Some(call) => r matches Some(c) && c@ == call,
            None => r is None,
        },
{
    let start = skip_space(s, 0);
    let mut name_stop = start;
    while name_stop < s.len() && !(space(s[name_stop]) || s[name_stop] == '(' || s[name_stop]
        == '#')
        invariant
            start <= name_stop <= s.len(),
            name_end(s@, start as int) == name_end(s@, name_stop as int),
        decreases s.len() - name_stop,
    {
        name_stop += 1;
    }
    let has_id = name_stop < s.len() && s[name_stop] == '#';
    let mut id_stop = name_stop;
    if has_id {
        id_stop = name_stop + 1;
        while id_stop < s.len() && !(space(s[id_stop]) || s[id_stop] == '(')
            invariant
                name_stop + 1 <= id_stop <= s.len(),
                id_end(s@, name_stop + 1) == id_end(s@, id_stop as int),
            decreases s.len() - id_stop,
        {
            id_stop += 1;
        }
    }
    let id = if has_id {
        Some(string_from(s, name_stop + 1, id_stop))
    } else {
        None
    };
    let open = skip_space(s, id_stop);
    let stop = trim_back(s, open, s.len());
    if name_stop == start {
        None
    } else if open >= s.len() {
        let args: Vec<RawArgument> = Vec::new();
        assert(raw_arguments_view(args@) =~= Seq::<RawArgumentView>::empty());
        Some(Call { name: string_from(s, start, name_stop), id, args })
    } else if s[open] == '(' && open + 1 < stop && s[stop - 1] == ')' {
        let inner = chars_from(s, open + 1, stop - 1);
        let args = split_arguments(&inner);
        if ordered(&args) {
            Some(Call { name: string_from(s, start, name_stop), id, args })
        } else {
            None
        }
    } else {
        None
    }
}

} // verus!
