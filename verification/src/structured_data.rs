//! Structured data: bracketed elements, each an identifier and a list of
//! named values, as they stand on the wire and in memory.

use vstd::prelude::*;
use vstd::std_specs::cmp::PartialEqSpecImpl;
use vstd::std_specs::convert::FromSpecImpl;
use vstd::string::StrSliceExecFns;
use vstd::string::StringExecFns;
use crate::error::ParseError;
use crate::text::{
    all_in, chars_of, copy_range, lemma_run_before, push_char, run, run_end, same_text, CharClass,
    Text,
};

verus! {

/// An element of structured data: its identifier and its parameters, each a
/// name and a value, in the order in which they are written.
#[derive(Clone, Debug)]
pub struct StructuredElement<S> {
    pub id: S,
    pub params: Vec<(S, S)>,
}

/// What an element holds.
pub struct ElementView {
    pub id: Seq<char>,
    pub params: Seq<(Seq<char>, Seq<char>)>,
}

impl<S: Text> View for StructuredElement<S> {
    type V = ElementView;

    open spec fn view(&self) -> ElementView {
        ElementView {
            id: self.id.text(),
            params: params_view(self.params@),
        }
    }
}

/// What a list of parameters holds.
pub open spec fn params_view<S: Text>(params: Seq<(S, S)>) -> Seq<(Seq<char>, Seq<char>)> {
    params.map_values(|p: (S, S)| (p.0.text(), p.1.text()))
}

/// What a list of elements holds.
pub open spec fn elements_view<S: Text>(elements: Seq<StructuredElement<S>>) -> Seq<ElementView> {
    elements.map_values(|e: StructuredElement<S>| e@)
}

/// An identifier or a parameter name: not empty, and free of spaces, `=`, `]` and `"`.
pub open spec fn is_name(s: Seq<char>) -> bool {
    s.len() > 0 && all_in(s, CharClass::Name)
}

impl ElementView {
    /// The elements that can be written: those whose identifier and parameter
    /// names are names.
    pub open spec fn is_valid(self) -> bool {
        &&& is_name(self.id)
        &&& forall|i: int| 0 <= i < self.params.len() ==> is_name(#[trigger] self.params[i].0)
    }
}

/// The characters that a value cannot hold on the wire as they are.
pub open spec fn is_special(c: char) -> bool {
    c == '"' || c == '\\' || c == ']'
}

/// A value as it is written: with a backslash before each `"`, `\` and `]`.
pub open spec fn escaped(value: Seq<char>) -> Seq<char>
    decreases value.len(),
{
    if value.len() == 0 {
        Seq::empty()
    } else if is_special(value[0]) {
        seq!['\\', value[0]] + escaped(value.skip(1))
    } else {
        seq![value[0]] + escaped(value.skip(1))
    }
}

/// A written value as it is held: each backslash that stands before `"`, `\`
/// or `]` is dropped, and any other backslash is kept.
pub open spec fn unescaped(written: Seq<char>) -> Seq<char>
    decreases written.len(),
{
    if written.len() == 0 {
        Seq::empty()
    } else if written[0] == '\\' && written.len() >= 2 && is_special(written[1]) {
        seq![written[1]] + unescaped(written.skip(2))
    } else {
        seq![written[0]] + unescaped(written.skip(1))
    }
}

/// A value that stands between quotes, read from behind the opening quote:
/// the value as it is held, and what follows the closing quote. The closing
/// quote is the first `"` that no backslash escapes; without one there is no
/// value.
pub open spec fn quoted(s: Seq<char>) -> Option<(Seq<char>, Seq<char>)>
    decreases s.len(),
{
    if s.len() == 0 {
        None
    } else if s[0] == '"' {
        Some((Seq::empty(), s.skip(1)))
    } else if s[0] == '\\' && s.len() >= 2 && is_special(s[1]) {
        match quoted(s.skip(2)) {
            Some((value, rest)) => Some((seq![s[1]] + value, rest)),
            None => None,
        }
    } else {
        match quoted(s.skip(1)) {
            Some((value, rest)) => Some((seq![s[0]] + value, rest)),
            None => None,
        }
    }
}

/// A parameter, read from its name: `name="value"`.
pub open spec fn param(s: Seq<char>) -> Option<((Seq<char>, Seq<char>), Seq<char>)> {
    let n = run(s, CharClass::Name) as int;
    if n > 0 && n + 1 < s.len() && s[n] == '=' && s[n + 1] == '"' {
        match quoted(s.skip(n + 2)) {
            Some((value, rest)) => Some(((s.take(n), value), rest)),
            None => None,
        }
    } else {
        None
    }
}

/// The parameters of an element and its closing bracket, read from behind
/// the identifier: each parameter after one space.
pub open spec fn params(s: Seq<char>) -> Option<(Seq<(Seq<char>, Seq<char>)>, Seq<char>)>
    decreases s.len(),
{
    if s.len() == 0 {
        None
    } else if s[0] == ']' {
        Some((Seq::empty(), s.skip(1)))
    } else if s[0] == ' ' {
        match param(s.skip(1)) {
            Some((p, rest)) => if rest.len() < s.len() {
                match params(rest) {
                    Some((ps, after)) => Some((seq![p] + ps, after)),
                    None => None,
                }
            } else {
                None
            },
            None => None,
        }
    } else {
        None
    }
}

/// An element, read from its opening bracket: `[id name="value" ...]`.
pub open spec fn element(s: Seq<char>) -> Option<(ElementView, Seq<char>)> {
    let n = run(s.skip(1), CharClass::Name) as int;
    if s.len() > 0 && s[0] == '[' && n > 0 {
        match params(s.skip(1 + n)) {
            Some((ps, rest)) => Some((ElementView { id: s.subrange(1, 1 + n), params: ps }, rest)),
            None => None,
        }
    } else {
        None
    }
}

/// The elements that stand one behind the other at the start of `s`, as
/// long as there is an opening bracket.
pub open spec fn elements(s: Seq<char>) -> Option<(Seq<ElementView>, Seq<char>)>
    decreases s.len(),
{
    if s.len() > 0 && s[0] == '[' {
        match element(s) {
            Some((e, rest)) => if rest.len() < s.len() {
                match elements(rest) {
                    Some((es, after)) => Some((seq![e] + es, after)),
                    None => None,
                }
            } else {
                None
            },
            None => None,
        }
    } else {
        Some((Seq::empty(), s))
    }
}

/// The structured data of a line: `-` for none, or one element or more.
pub open spec fn structured_data(s: Seq<char>) -> Option<(Seq<ElementView>, Seq<char>)> {
    if s.len() > 0 && s[0] == '-' {
        Some((Seq::empty(), s.skip(1)))
    } else if s.len() > 0 && s[0] == '[' {
        elements(s)
    } else {
        None
    }
}

/// A parameter as it is written: a space, the name, `=`, and the escaped
/// value between quotes.
pub open spec fn param_text(p: (Seq<char>, Seq<char>)) -> Seq<char> {
    seq![' '] + p.0 + seq!['=', '"'] + escaped(p.1) + seq!['"']
}

/// The parameters of an element as they are written, one behind the other.
pub open spec fn params_text(ps: Seq<(Seq<char>, Seq<char>)>) -> Seq<char>
    decreases ps.len(),
{
    if ps.len() == 0 {
        Seq::empty()
    } else {
        param_text(ps[0]) + params_text(ps.skip(1))
    }
}

/// An element as it is written.
pub open spec fn element_text(e: ElementView) -> Seq<char> {
    seq!['['] + e.id + params_text(e.params) + seq![']']
}

/// Elements as they are written, one behind the other with nothing between.
pub open spec fn elements_text(es: Seq<ElementView>) -> Seq<char>
    decreases es.len(),
{
    if es.len() == 0 {
        Seq::empty()
    } else {
        element_text(es[0]) + elements_text(es.skip(1))
    }
}

/// Escaping a value and taking the escapes away again gives the value.
pub proof fn lemma_unescape_escape(value: Seq<char>)
    ensures
        unescaped(escaped(value)) == value,
    decreases value.len(),
{
    if value.len() > 0 {
        let w = escaped(value);
        lemma_unescape_escape(value.skip(1));
        if is_special(value[0]) {
            assert(w.skip(2) =~= escaped(value.skip(1)));
        } else {
            assert(w.skip(1) =~= escaped(value.skip(1)));
        }
        assert(seq![value[0]] + value.skip(1) =~= value);
    }
}

/// A written value is read back from between its quotes, whatever follows
/// the closing quote.
pub proof fn lemma_quoted_escape(value: Seq<char>, tail: Seq<char>)
    ensures
        quoted(escaped(value) + seq!['"'] + tail) == Some((value, tail)),
    decreases value.len(),
{
    let s = escaped(value) + seq!['"'] + tail;
    if value.len() == 0 {
        assert(s.skip(1) =~= tail);
    } else {
        let next = escaped(value.skip(1)) + seq!['"'] + tail;
        lemma_quoted_escape(value.skip(1), tail);
        if is_special(value[0]) {
            assert(s.skip(2) =~= next);
        } else {
            assert(s.skip(1) =~= next);
        }
        assert(seq![value[0]] + value.skip(1) =~= value);
    }
}

/// A written parameter is read back from behind its space.
pub proof fn lemma_param_text(p: (Seq<char>, Seq<char>), tail: Seq<char>)
    requires
        is_name(p.0),
    ensures
        (param_text(p) + tail).len() > 0,
        (param_text(p) + tail)[0] == ' ',
        param((param_text(p) + tail).skip(1)) == Some((p, tail)),
{
    let s = (param_text(p) + tail).skip(1);
    let after_name = seq!['=', '"'] + escaped(p.1) + seq!['"'] + tail;
    let n = p.0.len() as int;
    assert(s =~= p.0 + after_name);
    lemma_run_before(p.0, after_name, CharClass::Name);
    assert(s.take(n) =~= p.0);
    assert(s.skip(n + 2) =~= escaped(p.1) + seq!['"'] + tail);
    lemma_quoted_escape(p.1, tail);
}

/// Written parameters and the closing bracket are read back.
pub proof fn lemma_params_text(ps: Seq<(Seq<char>, Seq<char>)>, tail: Seq<char>)
    requires
        forall|i: int| 0 <= i < ps.len() ==> is_name(#[trigger] ps[i].0),
    ensures
        params(params_text(ps) + seq![']'] + tail) == Some((ps, tail)),
        (params_text(ps) + seq![']'] + tail).len() > 0,
        !CharClass::Name.has((params_text(ps) + seq![']'] + tail)[0]),
    decreases ps.len(),
{
    let s = params_text(ps) + seq![']'] + tail;
    if ps.len() == 0 {
        assert(s.skip(1) =~= tail);
        assert(ps =~= Seq::empty());
    } else {
        let next = params_text(ps.skip(1)) + seq![']'] + tail;
        assert(s =~= param_text(ps[0]) + next);
        lemma_param_text(ps[0], next);
        assert forall|i: int| 0 <= i < ps.skip(1).len() implies is_name(
            #[trigger] ps.skip(1)[i].0,
        ) by {
            assert(ps.skip(1)[i] == ps[i + 1]);
        }
        lemma_params_text(ps.skip(1), tail);
        assert(seq![ps[0]] + ps.skip(1) =~= ps);
    }
}

/// A written element is read back, whatever follows it.
pub proof fn lemma_element_text(e: ElementView, tail: Seq<char>)
    requires
        e.is_valid(),
    ensures
        element(element_text(e) + tail) == Some((e, tail)),
        (element_text(e) + tail).len() > 0,
        (element_text(e) + tail)[0] == '[',
{
    let s = element_text(e) + tail;
    let after_id = params_text(e.params) + seq![']'] + tail;
    let n = e.id.len() as int;
    lemma_params_text(e.params, tail);
    assert(s.skip(1) =~= e.id + after_id);
    lemma_run_before(e.id, after_id, CharClass::Name);
    assert(s.skip(1 + n) =~= after_id);
    assert(s.subrange(1, 1 + n) =~= e.id);
}

/// Written elements are read back, where what follows them opens no element.
pub proof fn lemma_elements_text(es: Seq<ElementView>, tail: Seq<char>)
    requires
        forall|i: int| 0 <= i < es.len() ==> (#[trigger] es[i]).is_valid(),
        tail.len() > 0 ==> tail[0] != '[',
    ensures
        elements(elements_text(es) + tail) == Some((es, tail)),
    decreases es.len(),
{
    let s = elements_text(es) + tail;
    if es.len() == 0 {
        assert(s =~= tail);
        assert(es =~= Seq::empty());
    } else {
        let next = elements_text(es.skip(1)) + tail;
        assert(s =~= element_text(es[0]) + next);
        lemma_element_text(es[0], next);
        assert forall|i: int| 0 <= i < es.skip(1).len() implies (#[trigger] es.skip(
            1,
        )[i]).is_valid() by {
            assert(es.skip(1)[i] == es[i + 1]);
        }
        lemma_elements_text(es.skip(1), tail);
        assert(seq![es[0]] + es.skip(1) =~= es);
    }
}

/// What follows the elements that are read is no longer than what they were
/// read from.
pub proof fn lemma_elements_rest(s: Seq<char>)
    ensures
        elements(s) matches Some((es, rest)) ==> rest.len() <= s.len(),
    decreases s.len(),
{
    if s.len() > 0 && s[0] == '[' {
        if let Some((e, rest)) = element(s) {
            if rest.len() < s.len() {
                lemma_elements_rest(rest);
            }
        }
    }
}

/// Appends a value as it is written.
pub fn push_escaped(out: &mut String, value: &str)
    ensures
        final(out)@ == old(out)@ + escaped(value@),
{
    proof {
        assert(value@.skip(0) =~= value@);
    }
    for c in it: value.chars()
        invariant
            it.seq() == value@,
            out@ + escaped(value@.skip(it.index() as int)) == old(out)@ + escaped(value@),
    {
        let ghost before = out@;
        let ghost left = value@.skip(it.index() as int);
        if c == '"' || c == '\\' || c == ']' {
            push_char(out, '\\');
        }
        push_char(out, c);
        proof {
            assert(left[0] == c);
            assert(left.skip(1) =~= value@.skip(it.index() + 1));
            assert(out@ + escaped(left.skip(1)) =~= before + escaped(left));
        }
    }
    proof {
        assert(value@.skip(value@.len() as int) =~= Seq::<char>::empty());
        assert(out@ + Seq::<char>::empty() =~= out@);
    }
}

/// The value as it is written: with a backslash before each `"`, `\` and `]`.
pub fn escape(value: &str) -> (r: String)
    ensures
        r@ == escaped(value@),
{
    let mut r = String::new();
    push_escaped(&mut r, value);
    proof {
        assert(Seq::<char>::empty() + escaped(value@) =~= escaped(value@));
    }
    r
}

/// The written value as it is held: without the backslashes that escape a
/// `"`, a `\` or a `]`.
pub fn unescape(written: &str) -> (r: String)
    ensures
        r@ == unescaped(written@),
{
    let chars = chars_of(written);
    let mut r = String::new();
    let mut i: usize = 0;
    proof {
        assert(chars@.skip(0) =~= chars@);
        assert(r@ + unescaped(chars@) =~= unescaped(chars@));
    }
    while i < chars.len()
        invariant
            i <= chars.len(),
            chars@ == written@,
            r@ + unescaped(chars@.skip(i as int)) == unescaped(written@),
        decreases chars.len() - i,
    {
        let ghost before = r@;
        let ghost left = chars@.skip(i as int);
        let c: char = chars[i];
        if c == '\\' && i + 1 < chars.len() && (chars[i + 1] == '"' || chars[i + 1] == '\\'
            || chars[i + 1] == ']') {
            push_char(&mut r, chars[i + 1]);
            proof {
                assert(left[1] == chars@[i + 1]);
                assert(left.skip(2) =~= chars@.skip(i + 2));
                assert(r@ + unescaped(left.skip(2)) =~= before + unescaped(left));
            }
            i += 2;
        } else {
            push_char(&mut r, c);
            proof {
                assert(i + 1 < chars.len() ==> left[1] == chars@[i + 1]);
                assert(left.skip(1) =~= chars@.skip(i + 1));
                assert(r@ + unescaped(left.skip(1)) =~= before + unescaped(left));
            }
            i += 1;
        }
    }
    proof {
        assert(chars@.skip(i as int) =~= Seq::<char>::empty());
        assert(r@ + Seq::<char>::empty() =~= r@);
    }
    r
}

impl<S: Text> StructuredElement<S> {
    /// Appends the element as it is written.
    pub fn render_into(&self, out: &mut String)
        ensures
            final(out)@ == old(out)@ + element_text(self@),
    {
        let ghost pv = params_view(self.params@);
        push_char(out, '[');
        out.append(self.id.as_text());
        let ghost head = out@;
        let mut i: usize = 0;
        proof {
            assert(pv.skip(0) =~= pv);
        }
        while i < self.params.len()
            invariant
                i <= self.params.len(),
                pv == params_view(self.params@),
                out@ + params_text(pv.skip(i as int)) == head + params_text(pv),
            decreases self.params.len() - i,
        {
            let ghost before = out@;
            let ghost left = pv.skip(i as int);
            let p = &self.params[i];
            push_char(out, ' ');
            out.append(p.0.as_text());
            push_char(out, '=');
            push_char(out, '"');
            push_escaped(out, p.1.as_text());
            push_char(out, '"');
            proof {
                assert(left[0] == (p.0.text(), p.1.text()));
                assert(left.skip(1) =~= pv.skip(i + 1));
                assert(out@ =~= before + param_text(left[0]));
                assert(out@ + params_text(left.skip(1)) =~= before + params_text(left));
            }
            i += 1;
        }
        push_char(out, ']');
        proof {
            assert(pv.skip(i as int) =~= Seq::empty());
            assert(out@ =~= old(out)@ + element_text(self@));
        }
    }

    /// The element as it is written.
    pub fn render(&self) -> (r: String)
        ensures
            r@ == element_text(self@),
    {
        let mut r = String::new();
        self.render_into(&mut r);
        proof {
            assert(Seq::<char>::empty() + element_text(self@) =~= element_text(self@));
        }
        r
    }
}

/// Reads a value from behind its opening quote; gives the value as it is
/// held and where the text behind the closing quote starts.
fn read_quoted(chars: &Vec<char>, pos: usize) -> (r: Option<(String, usize)>)
    requires
        pos <= chars.len(),
    ensures
        match quoted(chars@.skip(pos as int)) {
            Some((value, rest)) => r matches Some((v, end)) && v@ == value && pos < end
                <= chars.len() && rest == chars@.skip(end as int),
            None => r is None,
        },
{
    let mut out = String::new();
    let mut i: usize = pos;
    proof {
        let q = quoted(chars@.skip(pos as int));
        if let Some((value, rest)) = q {
            assert(out@ + value =~= value);
        }
    }
    while i < chars.len()
        invariant
            pos <= i <= chars.len(),
            quoted(chars@.skip(pos as int)) == match quoted(chars@.skip(i as int)) {
                Some((value, rest)) => Some((out@ + value, rest)),
                None => None,
            },
        decreases chars.len() - i,
    {
        let ghost before = out@;
        let ghost left = chars@.skip(i as int);
        let c: char = chars[i];
        if c == '"' {
            proof {
                assert(left.skip(1) =~= chars@.skip(i + 1));
                assert(out@ + Seq::<char>::empty() =~= out@);
            }
            return Some((out, i + 1));
        }
        if c == '\\' && i + 1 < chars.len() && (chars[i + 1] == '"' || chars[i + 1] == '\\'
            || chars[i + 1] == ']') {
            push_char(&mut out, chars[i + 1]);
            proof {
                assert(left[1] == chars@[i + 1]);
                assert(left.skip(2) =~= chars@.skip(i + 2));
                if let Some((value, rest)) = quoted(left.skip(2)) {
                    assert(out@ + value =~= before + (seq![left[1]] + value));
                }
            }
            i += 2;
        } else {
            push_char(&mut out, c);
            proof {
                assert(i + 1 < chars.len() ==> left[1] == chars@[i + 1]);
                assert(left.skip(1) =~= chars@.skip(i + 1));
                if let Some((value, rest)) = quoted(left.skip(1)) {
                    assert(out@ + value =~= before + (seq![left[0]] + value));
                }
            }
            i += 1;
        }
    }
    None
}

/// Reads a parameter from its name; gives the name, the value and where the
/// text behind the closing quote starts.
fn read_param(chars: &Vec<char>, pos: usize) -> (r: Option<((String, String), usize)>)
    requires
        pos <= chars.len(),
    ensures
        match param(chars@.skip(pos as int)) {
            Some((p, rest)) => r matches Some((q, end)) && (q.0@, q.1@) == p && pos < end
                <= chars.len() && rest == chars@.skip(end as int),
            None => r is None,
        },
{
    let ghost s = chars@.skip(pos as int);
    let name_end = run_end(chars, pos, CharClass::Name);
    if name_end == pos || chars.len() - name_end < 2 || chars[name_end] != '=' || chars[name_end
        + 1] != '"' {
        return None;
    }
    proof {
        assert(s.skip(name_end - pos + 2) =~= chars@.skip(name_end + 2));
        assert(s.take(name_end - pos) =~= chars@.subrange(pos as int, name_end as int));
    }
    match read_quoted(chars, name_end + 2) {
        Some((value, end)) => {
            let name = copy_range(chars, pos, name_end);
            Some(((name, value), end))
        },
        None => None,
    }
}

/// Reads the parameters of an element and its closing bracket from behind
/// the identifier.
fn read_params(chars: &Vec<char>, pos: usize) -> (r: Option<(Vec<(String, String)>, usize)>)
    requires
        pos <= chars.len(),
    ensures
        match params(chars@.skip(pos as int)) {
            Some((ps, rest)) => r matches Some((v, end)) && params_view(v@) == ps && pos < end
                <= chars.len() && rest == chars@.skip(end as int),
            None => r is None,
        },
{
    let mut out: Vec<(String, String)> = Vec::new();
    let mut i: usize = pos;
    proof {
        assert(params_view(out@) =~= Seq::empty());
        if let Some((ps, rest)) = params(chars@.skip(pos as int)) {
            assert(params_view(out@) + ps =~= ps);
        }
    }
    while i < chars.len()
        invariant
            pos <= i <= chars.len(),
            params(chars@.skip(pos as int)) == match params(chars@.skip(i as int)) {
                Some((ps, rest)) => Some((params_view(out@) + ps, rest)),
                None => None,
            },
        decreases chars.len() - i,
    {
        let ghost before = params_view(out@);
        let ghost left = chars@.skip(i as int);
        let c: char = chars[i];
        if c == ']' {
            proof {
                assert(left.skip(1) =~= chars@.skip(i + 1));
                assert(before + Seq::empty() =~= before);
            }
            return Some((out, i + 1));
        }
        if c != ' ' {
            return None;
        }
        proof {
            assert(left.skip(1) =~= chars@.skip(i + 1));
        }
        match read_param(chars, i + 1) {
            Some((p, end)) => {
                let ghost pv = (p.0@, p.1@);
                out.push(p);
                proof {
                    assert(params_view(out@) =~= before.push(pv));
                    if let Some((ps, rest)) = params(chars@.skip(end as int)) {
                        assert(params_view(out@) + ps =~= before + (seq![pv] + ps));
                    }
                }
                i = end;
            },
            None => {
                return None;
            },
        }
    }
    None
}

/// Reads an element from its opening bracket.
fn read_element(chars: &Vec<char>, pos: usize) -> (r: Option<
    (StructuredElement<String>, usize),
>)
    requires
        pos <= chars.len(),
    ensures
        match element(chars@.skip(pos as int)) {
            Some((e, rest)) => r matches Some((v, end)) && v@ == e && pos < end <= chars.len()
                && rest == chars@.skip(end as int),
            None => r is None,
        },
{
    let ghost s = chars@.skip(pos as int);
    if pos >= chars.len() || chars[pos] != '[' {
        return None;
    }
    let id_end = run_end(chars, pos + 1, CharClass::Name);
    proof {
        assert(s.skip(1) =~= chars@.skip(pos + 1));
        assert(s.skip(1 + (id_end - pos - 1)) =~= chars@.skip(id_end as int));
        assert(s.subrange(1, 1 + (id_end - pos - 1)) =~= chars@.subrange(
            pos + 1,
            id_end as int,
        ));
    }
    if id_end == pos + 1 {
        return None;
    }
    match read_params(chars, id_end) {
        Some((params, end)) => {
            let id = copy_range(chars, pos + 1, id_end);
            Some((StructuredElement { id, params }, end))
        },
        None => None,
    }
}

/// Reads the elements that stand one behind the other from `pos` on.
fn read_elements(chars: &Vec<char>, pos: usize) -> (r: Option<
    (Vec<StructuredElement<String>>, usize),
>)
    requires
        pos <= chars.len(),
    ensures
        match elements(chars@.skip(pos as int)) {
            Some((es, rest)) => r matches Some((v, end)) && elements_view(v@) == es && pos <= end
                <= chars.len() && rest == chars@.skip(end as int),
            None => r is None,
        },
{
    let mut out: Vec<StructuredElement<String>> = Vec::new();
    let mut i: usize = pos;
    proof {
        assert(elements_view(out@) =~= Seq::empty());
        if let Some((es, rest)) = elements(chars@.skip(pos as int)) {
            assert(elements_view(out@) + es =~= es);
        }
    }
    while i < chars.len() && chars[i] == '['
        invariant
            pos <= i <= chars.len(),
            elements(chars@.skip(pos as int)) == match elements(chars@.skip(i as int)) {
                Some((es, rest)) => Some((elements_view(out@) + es, rest)),
                None => None,
            },
        decreases chars.len() - i,
    {
        let ghost before = elements_view(out@);
        match read_element(chars, i) {
            Some((e, end)) => {
                let ghost ev = e@;
                out.push(e);
                proof {
                    assert(elements_view(out@) =~= before.push(ev));
                    if let Some((es, rest)) = elements(chars@.skip(end as int)) {
                        assert(elements_view(out@) + es =~= before + (seq![ev] + es));
                    }
                }
                i = end;
            },
            None => {
                return None;
            },
        }
    }
    proof {
        assert(elements_view(out@) + Seq::empty() =~= elements_view(out@));
    }
    Some((out, i))
}

/// Reads the structured data of a line: `-`, or one element or more.
pub(crate) fn read_structured_data(chars: &Vec<char>, pos: usize) -> (r: Option<
    (Vec<StructuredElement<String>>, usize),
>)
    requires
        pos <= chars.len(),
    ensures
        match structured_data(chars@.skip(pos as int)) {
            Some((es, rest)) => r matches Some((v, end)) && elements_view(v@) == es && pos < end
                <= chars.len() && rest == chars@.skip(end as int),
            None => r is None,
        },
{
    if pos >= chars.len() {
        return None;
    }
    if chars[pos] == '-' {
        let none: Vec<StructuredElement<String>> = Vec::new();
        proof {
            assert(chars@.skip(pos as int).skip(1) =~= chars@.skip(pos + 1));
            assert(elements_view(none@) =~= Seq::empty());
        }
        return Some((none, pos + 1));
    }
    if chars[pos] != '[' {
        return None;
    }
    proof {
        let s = chars@.skip(pos as int);
        if let Some((e, rest)) = element(s) {
            if rest.len() < s.len() {
                lemma_elements_rest(rest);
            }
        }
    }
    read_elements(chars, pos)
}

/// Reads one element from the start of `input`; gives what follows it and
/// the element. `MalformedStructuredData` where `input` does not start with
/// an element: no opening bracket, an empty or ill-formed identifier or
/// name, a value without its quotes, or no closing bracket.
pub fn parse_element(input: &str) -> (r: Result<(&str, StructuredElement<String>), ParseError>)
    ensures
        match element(input@) {
            Some((e, rest)) => r matches Ok((left, v)) && left@ == rest && v@ == e,
            None => r matches Err(err) && err == ParseError::MalformedStructuredData,
        },
{
    let chars = chars_of(input);
    proof {
        assert(chars@.skip(0) =~= input@);
    }
    match read_element(&chars, 0) {
        Some((e, end)) => {
            let left = input.substring_char(end, chars.len());
            proof {
                assert(input@.subrange(end as int, chars.len() as int) =~= input@.skip(end as int));
            }
            Ok((left, e))
        },
        None => Err(ParseError::MalformedStructuredData),
    }
}

/// Reads the structured data at the start of `input`: `-` for none, or one
/// element or more with nothing between them. Gives what follows and the
/// elements; `MalformedStructuredData` where `input` starts with neither.
pub fn parse_structured_data(input: &str) -> (r: Result<
    (&str, Vec<StructuredElement<String>>),
    ParseError,
>)
    ensures
        match structured_data(input@) {
            Some((es, rest)) => r matches Ok((left, v)) && left@ == rest && elements_view(v@) == es,
            None => r matches Err(err) && err == ParseError::MalformedStructuredData,
        },
{
    let chars = chars_of(input);
    proof {
        assert(chars@.skip(0) =~= input@);
    }
    match read_structured_data(&chars, 0) {
        Some((es, end)) => {
            let left = input.substring_char(end, chars.len());
            proof {
                assert(input@.subrange(end as int, chars.len() as int) =~= input@.skip(end as int));
            }
            Ok((left, es))
        },
        None => Err(ParseError::MalformedStructuredData),
    }
}

impl<S: Text> PartialEq for StructuredElement<S> {
    /// Two elements are equal when they hold the same identifier and the
    /// same parameters in the same order.
    fn eq(&self, other: &Self) -> (r: bool) {
        if !same_text(self.id.as_text(), other.id.as_text()) {
            return false;
        }
        let ghost a = params_view(self.params@);
        let ghost b = params_view(other.params@);
        if self.params.len() != other.params.len() {
            proof {
                assert(a.len() != b.len());
            }
            return false;
        }
        let mut i: usize = 0;
        while i < self.params.len()
            invariant
                i <= self.params.len() == other.params.len(),
                a == params_view(self.params@),
                b == params_view(other.params@),
                forall|k: int| 0 <= k < i ==> a[k] == b[k],
            decreases self.params.len() - i,
        {
            let p = &self.params[i];
            let q = &other.params[i];
            if !same_text(p.0.as_text(), q.0.as_text()) || !same_text(
                p.1.as_text(),
                q.1.as_text(),
            ) {
                proof {
                    assert(a[i as int] != b[i as int]);
                }
                return false;
            }
            i += 1;
        }
        proof {
            assert(a =~= b);
        }
        true
    }
}

impl<S: Text> PartialEqSpecImpl for StructuredElement<S> {
    open spec fn obeys_eq_spec() -> bool {
        true
    }

    open spec fn eq_spec(&self, other: &Self) -> bool {
        self@ == other@
    }
}

impl<'a> StructuredElement<&'a str> {
    /// The element with every text copied into a text of its own.
    pub fn owned(&self) -> (r: StructuredElement<String>)
        ensures
            r@ == self@,
    {
        let mut params: Vec<(String, String)> = Vec::new();
        let mut i: usize = 0;
        while i < self.params.len()
            invariant
                i <= self.params.len(),
                params_view(params@) == params_view(self.params@).take(i as int),
            decreases self.params.len() - i,
        {
            let ghost before = params_view(params@);
            let p = &self.params[i];
            let name = String::from_str(p.0);
            let value = String::from_str(p.1);
            params.push((name, value));
            proof {
                let all = params_view(self.params@);
                assert(all[i as int] == (p.0@, p.1@));
                assert(params_view(params@) =~= before.push((p.0@, p.1@)));
                assert(all.take(i + 1) =~= all.take(i as int).push(all[i as int]));
            }
            i += 1;
        }
        proof {
            assert(params_view(self.params@).take(i as int) =~= params_view(self.params@));
        }
        StructuredElement { id: String::from_str(self.id), params }
    }
}

impl<'a> From<StructuredElement<&'a str>> for StructuredElement<String> {
    /// The element with every text copied into a text of its own.
    fn from(e: StructuredElement<&'a str>) -> (r: Self)
        ensures
            r@ == e@,
    {
        e.owned()
    }
}

impl<'a> FromSpecImpl<StructuredElement<&'a str>> for StructuredElement<String> {
    open spec fn obeys_from_spec() -> bool {
        false
    }

    open spec fn from_spec(e: StructuredElement<&'a str>) -> Self {
        arbitrary()
    }
}

} // verus!
