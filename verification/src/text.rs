//! Characters, runs of characters and decimal numbers: what every grammar of
//! this crate is built from.

use vstd::prelude::*;
use vstd::string::StrSliceExecFns;

verus! {

/// A text that a message can hold: one that it owns or one that it borrows.
pub trait Text: Sized {
    /// The characters of the text.
    spec fn text(&self) -> Seq<char>;

    fn as_text(&self) -> (r: &str)
        ensures
            r@ == self.text(),
    ;
}

impl<'a> Text for &'a str {
    open spec fn text(&self) -> Seq<char> {
        (*self)@
    }

    fn as_text(&self) -> (r: &str) {
        *self
    }
}

impl Text for String {
    open spec fn text(&self) -> Seq<char> {
        self@
    }

    fn as_text(&self) -> (r: &str) {
        self.as_str()
    }
}

/// The characters of an optional text.
pub open spec fn text_of<S: Text>(s: Option<S>) -> Option<Seq<char>> {
    match s {
        Some(t) => Some(t.text()),
        None => None,
    }
}

/// The sets of characters that the grammars scan for.
#[derive(Clone, Copy, Debug, PartialEq, Eq, Structural)]
pub enum CharClass {
    /// `0` to `9`.
    Digit,
    /// A space or a tab.
    Blank,
    /// Anything but a blank or a colon: the host and application names of the BSD format.
    Word,
    /// Anything but a space: a header field of the structured format.
    Field,
    /// Anything but a space, `=`, `]` or `"`: an element identifier or a parameter name.
    Name,
}

impl CharClass {
    pub open spec fn has(self, c: char) -> bool {
        match self {
            CharClass::Digit => '0' <= c && c <= '9',
            CharClass::Blank => c == ' ' || c == '\t',
            CharClass::Word => c != ' ' && c != '\t' && c != ':',
            CharClass::Field => c != ' ',
            CharClass::Name => c != ' ' && c != '=' && c != ']' && c != '"',
        }
    }

    pub fn contains(self, c: char) -> (r: bool)
        ensures
            r == self.has(c),
    {
        match self {
            CharClass::Digit => '0' <= c && c <= '9',
            CharClass::Blank => c == ' ' || c == '\t',
            CharClass::Word => c != ' ' && c != '\t' && c != ':',
            CharClass::Field => c != ' ',
            CharClass::Name => c != ' ' && c != '=' && c != ']' && c != '"',
        }
    }
}

/// Every character of `s` is in `class`.
pub open spec fn all_in(s: Seq<char>, class: CharClass) -> bool {
    forall|i: int| 0 <= i < s.len() ==> class.has(#[trigger] s[i])
}

/// The length of the longest prefix of `s` whose characters are all in `class`.
pub open spec fn run(s: Seq<char>, class: CharClass) -> nat
    decreases s.len(),
{
    if s.len() > 0 && class.has(s[0]) {
        1 + run(s.skip(1), class)
    } else {
        0
    }
}

/// A run ends at the first character outside the class, or at the end.
pub proof fn lemma_run(s: Seq<char>, class: CharClass)
    ensures
        run(s, class) <= s.len(),
        all_in(s.take(run(s, class) as int), class),
        run(s, class) < s.len() ==> !class.has(s[run(s, class) as int]),
    decreases s.len(),
{
    if s.len() > 0 && class.has(s[0]) {
        let t = s.skip(1);
        lemma_run(t, class);
        let n = run(s, class);
        assert forall|i: int| 0 <= i < n implies class.has(#[trigger] s.take(n as int)[i]) by {
            if i > 0 {
                assert(s.take(n as int)[i] == t.take(n - 1)[i - 1]);
            }
        }
    }
}

/// The only length that ends a run is the run's.
pub proof fn lemma_run_is(s: Seq<char>, class: CharClass, n: int)
    requires
        0 <= n <= s.len(),
        forall|i: int| 0 <= i < n ==> class.has(#[trigger] s[i]),
        n < s.len() ==> !class.has(s[n]),
    ensures
        run(s, class) == n,
    decreases n,
{
    if n > 0 {
        let t = s.skip(1);
        assert forall|i: int| 0 <= i < n - 1 implies class.has(#[trigger] t[i]) by {
            assert(t[i] == s[i + 1]);
        }
        lemma_run_is(t, class, n - 1);
    }
}

/// A word of the class followed by text that starts outside it is read back whole.
pub proof fn lemma_run_before(word: Seq<char>, tail: Seq<char>, class: CharClass)
    requires
        all_in(word, class),
        tail.len() > 0 ==> !class.has(tail[0]),
    ensures
        run(word + tail, class) == word.len(),
{
    lemma_run_is(word + tail, class, word.len() as int);
}

/// The characters of a `&str`, for reading by index.
pub(crate) fn chars_of(s: &str) -> (v: Vec<char>)
    ensures
        v@ == s@,
{
    let mut v: Vec<char> = Vec::new();
    for c in it: s.chars()
        invariant
            v@ == it.seq().take(it.index() as int),
            it.seq() == s@,
    {
        v.push(c);
    }
    v
}

/// Where the run of `class` that starts at `pos` ends.
pub(crate) fn run_end(chars: &Vec<char>, pos: usize, class: CharClass) -> (end: usize)
    requires
        pos <= chars.len(),
    ensures
        end == pos + run(chars@.skip(pos as int), class),
        pos <= end <= chars.len(),
{
    let mut end: usize = pos;
    while end < chars.len() && class.contains(chars[end])
        invariant
            pos <= end <= chars.len(),
            forall|i: int| pos <= i < end ==> class.has(#[trigger] chars@[i]),
        decreases chars.len() - end,
    {
        end += 1;
    }
    proof {
        let s = chars@.skip(pos as int);
        assert forall|i: int| 0 <= i < end - pos implies class.has(#[trigger] s[i]) by {
            assert(s[i] == chars@[pos + i]);
        }
        lemma_run_is(s, class, end - pos);
    }
    end
}

/// The number that a decimal digit stands for.
pub open spec fn digit_value(c: char) -> int {
    c as int - 48
}

/// The digit that stands for `d`, where `d` is below ten.
pub open spec fn digit_char(d: int) -> char {
    (d + 48) as u8 as char
}

/// The number that a sequence of decimal digits writes, the empty one writing zero.
pub open spec fn decimal(s: Seq<char>) -> nat
    decreases s.len(),
{
    if s.len() == 0 {
        0
    } else {
        (10 * decimal(s.drop_last()) + digit_value(s.last())) as nat
    }
}

/// The shortest decimal writing of `n`.
pub open spec fn decimal_text(n: nat) -> Seq<char>
    decreases n,
{
    if n < 10 {
        seq![digit_char(n as int)]
    } else {
        decimal_text(n / 10).push(digit_char((n % 10) as int))
    }
}

/// A decimal writing is made of digits, is not empty, and writes its number.
pub proof fn lemma_decimal_text(n: nat)
    ensures
        decimal_text(n).len() > 0,
        all_in(decimal_text(n), CharClass::Digit),
        decimal(decimal_text(n)) == n,
    decreases n,
{
    let t = decimal_text(n);
    if n < 10 {
        assert(t.drop_last() =~= Seq::<char>::empty());
        assert(decimal(t.drop_last()) == 0);
    } else {
        lemma_decimal_text(n / 10);
        assert(t.drop_last() =~= decimal_text(n / 10));
    }
}

/// Reading more digits never gives a smaller number.
pub proof fn lemma_decimal_grows(s: Seq<char>, k: int)
    requires
        0 <= k <= s.len(),
        all_in(s, CharClass::Digit),
    ensures
        decimal(s.take(k)) <= decimal(s),
    decreases s.len() - k,
{
    if k < s.len() {
        lemma_decimal_grows(s, k + 1);
        assert(s.take(k + 1).drop_last() =~= s.take(k));
        assert(CharClass::Digit.has(s[k]));
    } else {
        assert(s.take(k) =~= s);
    }
}

/// The number written by the digits from `from` up to `to`, if a `u32` holds it.
pub(crate) fn read_decimal(chars: &Vec<char>, from: usize, to: usize) -> (r: Option<u32>)
    requires
        from <= to <= chars.len(),
        all_in(chars@.subrange(from as int, to as int), CharClass::Digit),
    ensures
        r == if decimal(chars@.subrange(from as int, to as int)) <= u32::MAX {
            Some(decimal(chars@.subrange(from as int, to as int)) as u32)
        } else {
            None
        },
{
    let ghost s = chars@.subrange(from as int, to as int);
    let mut acc: u32 = 0;
    let mut i: usize = from;
    while i < to
        invariant
            from <= i <= to <= chars.len(),
            s == chars@.subrange(from as int, to as int),
            all_in(s, CharClass::Digit),
            acc == decimal(s.take(i - from)),
        decreases to - i,
    {
        let c: char = chars[i];
        proof {
            assert(s[i - from] == c);
            assert(CharClass::Digit.has(s[i - from]));
            assert(s.take(i - from + 1).drop_last() =~= s.take(i - from));
        }
        let d: u64 = c as u64 - 48;
        let wide: u64 = acc as u64 * 10 + d;
        if wide > u32::MAX as u64 {
            proof {
                lemma_decimal_grows(s, i - from + 1);
            }
            return None;
        }
        acc = wide as u32;
        i += 1;
    }
    proof {
        assert(s.take(to - from) =~= s);
    }
    Some(acc)
}

/// A number at the start of `s`: one decimal digit or more, as many as there
/// are, writing a number that a `u32` holds. Gives the number and what
/// follows the digits.
pub open spec fn number(s: Seq<char>) -> Option<(u32, Seq<char>)> {
    let n = run(s, CharClass::Digit) as int;
    if n > 0 && decimal(s.take(n)) <= u32::MAX {
        Some((decimal(s.take(n)) as u32, s.skip(n)))
    } else {
        None
    }
}

/// What follows the character `c` at the start of `s`, if `s` starts with it.
pub open spec fn after(s: Seq<char>, c: char) -> Option<Seq<char>> {
    if s.len() > 0 && s[0] == c {
        Some(s.skip(1))
    } else {
        None
    }
}

/// A written number is read back where no digit follows it.
pub proof fn lemma_number_text(n: u32, tail: Seq<char>)
    requires
        tail.len() > 0 ==> !CharClass::Digit.has(tail[0]),
    ensures
        number(decimal_text(n as nat) + tail) == Some((n, tail)),
{
    let text = decimal_text(n as nat);
    let s = text + tail;
    lemma_decimal_text(n as nat);
    lemma_run_before(text, tail, CharClass::Digit);
    assert(s.take(text.len() as int) =~= text);
    assert(s.skip(text.len() as int) =~= tail);
}

/// Reads the number that starts at `pos`; gives it and where its digits end.
pub(crate) fn read_number(chars: &Vec<char>, pos: usize) -> (r: Option<(u32, usize)>)
    requires
        pos <= chars.len(),
    ensures
        match number(chars@.skip(pos as int)) {
            Some((n, rest)) => r matches Some((v, end)) && v == n && pos < end <= chars.len()
                && rest == chars@.skip(end as int),
            None => r is None,
        },
{
    let ghost s = chars@.skip(pos as int);
    let end = run_end(chars, pos, CharClass::Digit);
    if end == pos {
        return None;
    }
    proof {
        lemma_run(s, CharClass::Digit);
        assert(s.take(end - pos) =~= chars@.subrange(pos as int, end as int));
        assert(s.skip(end - pos) =~= chars@.skip(end as int));
    }
    match read_decimal(chars, pos, end) {
        Some(v) => Some((v, end)),
        None => None,
    }
}

/// The characters of `s` in a range, where there is one.
pub open spec fn range_text(s: Seq<char>, range: Option<(usize, usize)>) -> Option<Seq<char>> {
    match range {
        Some((from, to)) => Some(s.subrange(from as int, to as int)),
        None => None,
    }
}

/// Whether a range lies within a text of `len` characters.
pub open spec fn range_within(len: nat, range: Option<(usize, usize)>) -> bool {
    match range {
        Some((from, to)) => from <= to <= len,
        None => true,
    }
}

/// The part of `input` in a range, where there is one.
pub(crate) fn slice<'a>(input: &'a str, range: Option<(usize, usize)>) -> (r: Option<&'a str>)
    requires
        range_within(input@.len(), range),
    ensures
        text_of(r) == range_text(input@, range),
{
    match range {
        Some((from, to)) => Some(input.substring_char(from, to)),
        None => None,
    }
}

/// The characters from `from` up to `to`, as a text of their own.
pub(crate) fn copy_range(chars: &Vec<char>, from: usize, to: usize) -> (r: String)
    requires
        from <= to <= chars.len(),
    ensures
        r@ == chars@.subrange(from as int, to as int),
{
    let mut r = String::new();
    let mut i: usize = from;
    while i < to
        invariant
            from <= i <= to <= chars.len(),
            r@ == chars@.subrange(from as int, i as int),
        decreases to - i,
    {
        push_char(&mut r, chars[i]);
        proof {
            assert(chars@.subrange(from as int, i as int).push(chars@[i as int])
                =~= chars@.subrange(from as int, i + 1));
        }
        i += 1;
    }
    r
}

/// `String::push` of std: the character is added at the end.
#[verifier::external_body]
pub(crate) fn push_char(out: &mut String, c: char)
    ensures
        final(out)@ == old(out)@.push(c),
{
    out.push(c);
}

/// Appends the decimal writing of `n`.
pub(crate) fn push_decimal(out: &mut String, n: u32)
    ensures
        final(out)@ == old(out)@ + decimal_text(n as nat),
    decreases n,
{
    if n >= 10 {
        push_decimal(out, n / 10);
    }
    let d: u8 = (n % 10) as u8;
    push_char(out, (d + 48) as char);
    proof {
        if n < 10 {
            assert(old(out)@.push(digit_char(n as int)) =~= old(out)@ + decimal_text(n as nat));
        } else {
            assert((old(out)@ + decimal_text((n / 10) as nat)).push(digit_char((n % 10) as int))
                =~= old(out)@ + decimal_text(n as nat));
        }
    }
}

/// Whether two texts hold the same characters.
pub fn same_text(a: &str, b: &str) -> (r: bool)
    ensures
        r == (a@ == b@),
{
    let x = a.as_bytes();
    let y = b.as_bytes();
    proof {
        vstd::utf8::encode_utf8_decode_utf8(a@);
        vstd::utf8::encode_utf8_decode_utf8(b@);
    }
    if x.len() != y.len() {
        return false;
    }
    let mut i: usize = 0;
    while i < x.len()
        invariant
            i <= x.len() == y.len(),
            a@ == b@ ==> x@ == y@,
            forall|k: int| 0 <= k < i ==> x@[k] == y@[k],
        decreases x.len() - i,
    {
        if x[i] != y[i] {
            return false;
        }
        i += 1;
    }
    assert(x@ =~= y@);
    true
}

} // verus!
