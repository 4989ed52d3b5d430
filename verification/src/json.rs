//! A small JSON codec: values, their canonical text, a serializer and a
//! parser, and the proof that parsing inverts serialization.
//!
//! The API's response bodies are JSON. The library decodes them itself so
//! that the mapping between text and typed records is stated and proved
//! rather than assumed. `JsonV` is the mathematical value of a JSON tree;
//! `Json` is its executable counterpart. `ser_v` gives the canonical text
//! of a value: no whitespace, object members in the order given, strings
//! escaped minimally (quote, backslash, and control characters as
//! `\u00..`). The parser accepts that canonical text — the round-trip
//! theorem — and the usual relaxations: whitespace between tokens, the
//! short escapes, and hexadecimal escapes for ASCII characters.

use vstd::prelude::*;
use crate::digits::dec_digit;
use crate::strutil::push_char;

verus! {

/// The mathematical value of a JSON tree.
pub enum JsonV {
    Null,
    Bool(bool),
    /// A number, kept as its decimal token.
    Num(Seq<char>),
    Str(Seq<char>),
    Arr(Seq<JsonV>),
    Obj(Seq<(Seq<char>, JsonV)>),
}

/// An executable JSON tree.
#[derive(Debug, PartialEq)]
pub enum Json {
    Null,
    Bool(bool),
    /// A number, kept as its decimal token.
    Num(Vec<char>),
    Str(Vec<char>),
    Arr(Vec<Json>),
    Obj(Vec<Member>),
}

/// One key-value pair of a JSON object.
#[derive(Debug, PartialEq)]
pub struct Member {
    pub key: Vec<char>,
    pub value: Json,
}

/// The mathematical value of an executable JSON tree.
pub open spec fn jv(j: Json) -> JsonV
    decreases j, 1int,
{
    match j {
        Json::Null => JsonV::Null,
        Json::Bool(b) => JsonV::Bool(b),
        Json::Num(t) => JsonV::Num(t@),
        Json::Str(s) => JsonV::Str(s@),
        Json::Arr(items) => JsonV::Arr(jv_seq(items@)),
        Json::Obj(ms) => JsonV::Obj(jv_mem_seq(ms@)),
    }
}

/// The mathematical values of a sequence of executable trees.
pub open spec fn jv_seq(items: Seq<Json>) -> Seq<JsonV>
    decreases items, 0int,
{
    Seq::new(
        items.len(),
        |k: int| if 0 <= k < items.len() {
            jv(items[k])
        } else {
            JsonV::Null
        },
    )
}

/// The mathematical values of a sequence of executable members.
pub open spec fn jv_mem_seq(ms: Seq<Member>) -> Seq<(Seq<char>, JsonV)>
    decreases ms, 0int,
{
    Seq::new(
        ms.len(),
        |k: int| if 0 <= k < ms.len() {
            (ms[k].key@, jv(ms[k].value))
        } else {
            (Seq::<char>::empty(), JsonV::Null)
        },
    )
}

// ---------------------------------------------------------------------------
// The number grammar.
// ---------------------------------------------------------------------------

/// A decimal digit.
pub open spec fn is_digit(c: char) -> bool {
    '0' <= c && c <= '9'
}

/// The states of the number-token automaton.
pub enum NumState {
    Start,
    Minus,
    Zero,
    Digits,
    Dot,
    Frac,
    Exp,
    ExpSign,
    ExpDigits,
}

/// One step of the number-token automaton.
pub open spec fn num_step(st: NumState, c: char) -> Option<NumState> {
    match st {
        NumState::Start => if c == '-' {
            Some(NumState::Minus)
        } else if c == '0' {
            Some(NumState::Zero)
        } else if is_digit(c) {
            Some(NumState::Digits)
        } else {
            None
        },
        NumState::Minus => if c == '0' {
            Some(NumState::Zero)
        } else if is_digit(c) {
            Some(NumState::Digits)
        } else {
            None
        },
        NumState::Zero => if c == '.' {
            Some(NumState::Dot)
        } else if c == 'e' || c == 'E' {
            Some(NumState::Exp)
        } else {
            None
        },
        NumState::Digits => if is_digit(c) {
            Some(NumState::Digits)
        } else if c == '.' {
            Some(NumState::Dot)
        } else if c == 'e' || c == 'E' {
            Some(NumState::Exp)
        } else {
            None
        },
        NumState::Dot => if is_digit(c) {
            Some(NumState::Frac)
        } else {
            None
        },
        NumState::Frac => if is_digit(c) {
            Some(NumState::Frac)
        } else if c == 'e' || c == 'E' {
            Some(NumState::Exp)
        } else {
            None
        },
        NumState::Exp => if c == '+' || c == '-' {
            Some(NumState::ExpSign)
        } else if is_digit(c) {
            Some(NumState::ExpDigits)
        } else {
            None
        },
        NumState::ExpSign => if is_digit(c) {
            Some(NumState::ExpDigits)
        } else {
            None
        },
        NumState::ExpDigits => if is_digit(c) {
            Some(NumState::ExpDigits)
        } else {
            None
        },
    }
}

/// The states in which a number token may end.
pub open spec fn num_accept(st: NumState) -> bool {
    st is Zero || st is Digits || st is Frac || st is ExpDigits
}

/// Whether the automaton accepts `s` starting from `st`.
pub open spec fn num_run(s: Seq<char>, st: NumState) -> bool
    decreases s.len(),
{
    if s.len() == 0 {
        num_accept(st)
    } else {
        match num_step(st, s[0]) {
            Some(st2) => num_run(s.drop_first(), st2),
            None => false,
        }
    }
}

/// Whether `t` is a well-formed JSON number token.
pub open spec fn wf_num(t: Seq<char>) -> bool {
    num_run(t, NumState::Start)
}

/// The characters that can appear in a number token.
pub open spec fn numish(c: char) -> bool {
    is_digit(c) || c == '-' || c == '+' || c == '.' || c == 'e' || c == 'E'
}

// ---------------------------------------------------------------------------
// Well-formed values.
// ---------------------------------------------------------------------------

/// Every number token inside the value is well formed.
pub open spec fn wf_v(j: JsonV) -> bool
    decreases j,
{
    match j {
        JsonV::Num(t) => wf_num(t),
        JsonV::Arr(items) => wf_items(items),
        JsonV::Obj(ms) => wf_members(ms),
        _ => true,
    }
}

/// Every element of the sequence is well formed.
pub open spec fn wf_items(items: Seq<JsonV>) -> bool
    decreases items,
{
    items.len() == 0 || (wf_v(items[0]) && wf_items(items.drop_first()))
}

/// Every member value of the sequence is well formed.
pub open spec fn wf_members(ms: Seq<(Seq<char>, JsonV)>) -> bool
    decreases ms,
{
    ms.len() == 0 || (wf_v(ms[0].1) && wf_members(ms.drop_first()))
}



// ---------------------------------------------------------------------------
// The canonical text of a value.
// ---------------------------------------------------------------------------

/// The character for one hexadecimal digit, lower case.
pub open spec fn hex_char(n: nat) -> char {
    if n < 10 {
        dec_digit(n)
    } else if n == 10 { 'a' }
    else if n == 11 { 'b' }
    else if n == 12 { 'c' }
    else if n == 13 { 'd' }
    else if n == 14 { 'e' }
    else { 'f' }
}

/// The canonical escape of one string character.
pub open spec fn esc_char(c: char) -> Seq<char> {
    if c == '"' {
        seq!['\\', '"']
    } else if c == '\\' {
        seq!['\\', '\\']
    } else if (c as u32) < 32 {
        seq!['\\', 'u', '0', '0', hex_char((c as u32 / 16) as nat), hex_char(
            (c as u32 % 16) as nat,
        )]
    } else {
        seq![c]
    }
}

/// The canonical escape of a whole string body.
pub open spec fn esc_str(s: Seq<char>) -> Seq<char>
    decreases s.len(),
{
    if s.len() == 0 {
        Seq::<char>::empty()
    } else {
        esc_char(s[0]) + esc_str(s.drop_first())
    }
}

/// Escaping a concatenation escapes the parts.
pub proof fn lemma_esc_str_app(a: Seq<char>, b: Seq<char>)
    ensures
        esc_str(a + b) == esc_str(a) + esc_str(b),
    decreases a.len(),
{
    if a.len() == 0 {
        assert(a + b =~= b);
        assert(esc_str(a) + esc_str(b) =~= esc_str(b));
    } else {
        lemma_esc_str_app(a.drop_first(), b);
        assert((a + b).drop_first() =~= a.drop_first() + b);
        assert(esc_char(a[0]) + (esc_str(a.drop_first()) + esc_str(b)) =~= (esc_char(a[0])
            + esc_str(a.drop_first())) + esc_str(b));
    }
}

/// The canonical text of a value.
pub open spec fn ser_v(j: JsonV) -> Seq<char>
    decreases j,
{
    match j {
        JsonV::Null => seq!['n', 'u', 'l', 'l'],
        JsonV::Bool(b) => if b {
            seq!['t', 'r', 'u', 'e']
        } else {
            seq!['f', 'a', 'l', 's', 'e']
        },
        JsonV::Num(t) => t,
        JsonV::Str(s) => seq!['"'] + esc_str(s) + seq!['"'],
        JsonV::Arr(items) => seq!['['] + ser_items(items) + seq![']'],
        JsonV::Obj(ms) => seq!['{'] + ser_members(ms) + seq!['}'],
    }
}

/// The canonical text of the elements of an array, comma separated.
pub open spec fn ser_items(items: Seq<JsonV>) -> Seq<char>
    decreases items,
{
    if items.len() == 0 {
        Seq::<char>::empty()
    } else if items.len() == 1 {
        ser_v(items[0])
    } else {
        ser_v(items[0]) + seq![','] + ser_items(items.drop_first())
    }
}

/// The canonical text of the members of an object, comma separated.
pub open spec fn ser_members(ms: Seq<(Seq<char>, JsonV)>) -> Seq<char>
    decreases ms,
{
    if ms.len() == 0 {
        Seq::<char>::empty()
    } else if ms.len() == 1 {
        ser_member(ms[0])
    } else {
        ser_member(ms[0]) + seq![','] + ser_members(ms.drop_first())
    }
}

/// The canonical text of one object member.
pub open spec fn ser_member(m: (Seq<char>, JsonV)) -> Seq<char>
    decreases m,
{
    seq!['"'] + esc_str(m.0) + seq!['"', ':'] + ser_v(m.1)
}

// ---------------------------------------------------------------------------
// The serializer.
// ---------------------------------------------------------------------------

/// The digit character for `n`, which must be below sixteen, lower case.
fn hex_char_exec(n: u32) -> (r: char)
    requires
        n < 16,
    ensures
        r == hex_char(n as nat),
{
    if n == 0 { '0' }
    else if n == 1 { '1' }
    else if n == 2 { '2' }
    else if n == 3 { '3' }
    else if n == 4 { '4' }
    else if n == 5 { '5' }
    else if n == 6 { '6' }
    else if n == 7 { '7' }
    else if n == 8 { '8' }
    else if n == 9 { '9' }
    else if n == 10 { 'a' }
    else if n == 11 { 'b' }
    else if n == 12 { 'c' }
    else if n == 13 { 'd' }
    else if n == 14 { 'e' }
    else { 'f' }
}

/// Appends all characters of `v` to `s`.
pub fn push_chars(s: &mut String, v: &Vec<char>)
    ensures
        final(s)@ == old(s)@ + v@,
{
    let mut i: usize = 0;
    while i < v.len()
        invariant
            i <= v@.len(),
            s@ =~= old(s)@ + v@.take(i as int),
        decreases v@.len() - i,
    {
        push_char(s, v[i]);
        proof {
            assert(old(s)@ + v@.take(i as int) + seq![v@[i as int]] =~= old(s)@ + v@.take(
                i as int + 1,
            ));
        }
        i += 1;
    }
    proof {
        assert(old(s)@ + v@.take(v@.len() as int) =~= old(s)@ + v@);
    }
}

/// Appends the canonical escape of the string body `v` to `s`.
fn push_escaped(s: &mut String, v: &Vec<char>)
    ensures
        final(s)@ == old(s)@ + esc_str(v@),
{
    let mut i: usize = 0;
    while i < v.len()
        invariant
            i <= v@.len(),
            s@ =~= old(s)@ + esc_str(v@.take(i as int)),
        decreases v@.len() - i,
    {
        let c = v[i];
        proof {
            assert(v@.take(i as int + 1) =~= v@.take(i as int) + seq![v@[i as int]]);
            lemma_esc_str_app(v@.take(i as int), seq![v@[i as int]]);
            assert(esc_str(seq![v@[i as int]]) == esc_char(v@[i as int]) + esc_str(
                seq![v@[i as int]].drop_first(),
            ));
            assert(seq![v@[i as int]].drop_first() =~= Seq::<char>::empty());
            assert(esc_str(seq![v@[i as int]]) =~= esc_char(v@[i as int]));
        }
        if c == '"' {
            push_char(s, '\\');
            push_char(s, '"');
        } else if c == '\\' {
            push_char(s, '\\');
            push_char(s, '\\');
        } else if (c as u32) < 32 {
            push_char(s, '\\');
            push_char(s, 'u');
            push_char(s, '0');
            push_char(s, '0');
            push_char(s, hex_char_exec((c as u32) / 16));
            push_char(s, hex_char_exec((c as u32) % 16));
        } else {
            push_char(s, c);
        }
        proof {
            assert(s@ =~= old(s)@ + esc_str(v@.take(i as int + 1)));
        }
        i += 1;
    }
    proof {
        assert(v@.take(v@.len() as int) =~= v@);
    }
}

/// Appends the canonical text of `j` to `s`.
pub fn write_json(s: &mut String, j: &Json)
    ensures
        final(s)@ == old(s)@ + ser_v(jv(*j)),
    decreases *j, 0int,
{
    match j {
        Json::Null => {
            push_char(s, 'n');
            push_char(s, 'u');
            push_char(s, 'l');
            push_char(s, 'l');
            proof {
                assert(s@ =~= old(s)@ + ser_v(jv(*j)));
            }
        },
        Json::Bool(b) => {
            if *b {
                push_char(s, 't');
                push_char(s, 'r');
                push_char(s, 'u');
                push_char(s, 'e');
            } else {
                push_char(s, 'f');
                push_char(s, 'a');
                push_char(s, 'l');
                push_char(s, 's');
                push_char(s, 'e');
            }
            proof {
                assert(s@ =~= old(s)@ + ser_v(jv(*j)));
            }
        },
        Json::Num(t) => {
            push_chars(s, t);
        },
        Json::Str(body) => {
            push_char(s, '"');
            push_escaped(s, body);
            push_char(s, '"');
            proof {
                assert(s@ =~= old(s)@ + ser_v(jv(*j)));
            }
        },
        Json::Arr(items) => {
            push_char(s, '[');
            write_items(s, items, 0);
            push_char(s, ']');
            proof {
                assert(jv_seq(items@).skip(0) =~= jv_seq(items@));
                assert(s@ =~= old(s)@ + ser_v(jv(*j)));
            }
        },
        Json::Obj(ms) => {
            push_char(s, '{');
            write_members(s, ms, 0);
            push_char(s, '}');
            proof {
                assert(jv_mem_seq(ms@).skip(0) =~= jv_mem_seq(ms@));
                assert(s@ =~= old(s)@ + ser_v(jv(*j)));
            }
        },
    }
}

/// Appends the canonical text of the elements of `items` from `idx` on.
fn write_items(s: &mut String, items: &Vec<Json>, idx: usize)
    requires
        idx <= items@.len(),
    ensures
        final(s)@ == old(s)@ + ser_items(jv_seq(items@).skip(idx as int)),
    decreases items@, items@.len() - idx,
{
    let ghost views = jv_seq(items@);
    if idx < items.len() {
        write_json(s, &items[idx]);
        if idx + 1 < items.len() {
            push_char(s, ',');
            write_items(s, items, idx + 1);
            proof {
                assert(views.skip(idx as int).drop_first() =~= views.skip(idx as int + 1));
                assert(s@ =~= old(s)@ + ser_items(views.skip(idx as int)));
            }
        } else {
            proof {
                assert(views.skip(idx as int).len() == 1);
                assert(views.skip(idx as int)[0] == jv(items@[idx as int]));
                assert(s@ =~= old(s)@ + ser_items(views.skip(idx as int)));
            }
        }
    } else {
        proof {
            assert(views.skip(idx as int).len() == 0);
            assert(s@ =~= old(s)@ + ser_items(views.skip(idx as int)));
        }
    }
}

/// Appends the canonical text of the members of `ms` from `idx` on.
fn write_members(s: &mut String, ms: &Vec<Member>, idx: usize)
    requires
        idx <= ms@.len(),
    ensures
        final(s)@ == old(s)@ + ser_members(jv_mem_seq(ms@).skip(idx as int)),
    decreases ms@, ms@.len() - idx,
{
    let ghost views = jv_mem_seq(ms@);
    if idx < ms.len() {
        push_char(s, '"');
        push_escaped(s, &ms[idx].key);
        push_char(s, '"');
        push_char(s, ':');
        write_json(s, &ms[idx].value);
        proof {
            assert(s@ =~= old(s)@ + ser_member(views.skip(idx as int)[0]));
        }
        if idx + 1 < ms.len() {
            push_char(s, ',');
            write_members(s, ms, idx + 1);
            proof {
                assert(views.skip(idx as int).drop_first() =~= views.skip(idx as int + 1));
                assert(s@ =~= old(s)@ + ser_members(views.skip(idx as int)));
            }
        } else {
            proof {
                assert(views.skip(idx as int).len() == 1);
                assert(s@ =~= old(s)@ + ser_members(views.skip(idx as int)));
            }
        }
    } else {
        proof {
            assert(views.skip(idx as int).len() == 0);
            assert(s@ =~= old(s)@ + ser_members(views.skip(idx as int)));
        }
    }
}


// ---------------------------------------------------------------------------
// The parser, at the specification level.
// ---------------------------------------------------------------------------

/// JSON whitespace.
pub open spec fn is_ws(c: char) -> bool {
    c == ' ' || c == '\t' || c == '\n' || c == '\r'
}

/// The first position at or after `i` holding no whitespace.
pub open spec fn skip_ws(s: Seq<char>, i: int) -> int
    decreases s.len() - i,
{
    if i < s.len() && is_ws(s[i]) {
        skip_ws(s, i + 1)
    } else {
        i
    }
}


/// The first position at or after `i` holding no number character.
pub open spec fn numish_end(s: Seq<char>, i: int) -> int
    decreases s.len() - i,
{
    if i < s.len() && numish(s[i]) {
        numish_end(s, i + 1)
    } else {
        i
    }
}


/// A hexadecimal digit, either case.
pub open spec fn is_hex(c: char) -> bool {
    is_digit(c) || ('a' <= c && c <= 'f') || ('A' <= c && c <= 'F')
}

/// The value of a hexadecimal digit.
pub open spec fn hex_val(c: char) -> nat {
    if is_digit(c) {
        (c as int - '0' as int) as nat
    } else if 'a' <= c && c <= 'f' {
        (c as int - 'a' as int + 10) as nat
    } else if 'A' <= c && c <= 'F' {
        (c as int - 'A' as int + 10) as nat
    } else {
        0
    }
}

/// Reads one escape, with `i` just after the backslash: the character it
/// stands for and the position after it. Hexadecimal escapes are taken for
/// ASCII characters only.
pub open spec fn p_escape(s: Seq<char>, i: int) -> Option<(char, int)> {
    if i >= s.len() {
        None
    } else {
        let c = s[i];
        if c == '"' {
            Some(('"', i + 1))
        } else if c == '\\' {
            Some(('\\', i + 1))
        } else if c == '/' {
            Some(('/', i + 1))
        } else if c == 'b' {
            Some(('\u{08}', i + 1))
        } else if c == 'f' {
            Some(('\u{0C}', i + 1))
        } else if c == 'n' {
            Some(('\n', i + 1))
        } else if c == 'r' {
            Some(('\r', i + 1))
        } else if c == 't' {
            Some(('\t', i + 1))
        } else if c == 'u' {
            if i + 5 <= s.len() && is_hex(s[i + 1]) && is_hex(s[i + 2]) && is_hex(s[i + 3])
                && is_hex(s[i + 4]) {
                let v = hex_val(s[i + 1]) * 4096 + hex_val(s[i + 2]) * 256 + hex_val(s[i + 3])
                    * 16 + hex_val(s[i + 4]);
                if v < 128 {
                    Some(((v as u8) as char, i + 5))
                } else {
                    None
                }
            } else {
                None
            }
        } else {
            None
        }
    }
}

/// Reads a string body up to and over its closing quote, with `i` just
/// after the opening quote: the characters it stands for and the position
/// after the closing quote.
pub open spec fn p_str_body(s: Seq<char>, i: int) -> Option<(Seq<char>, int)>
    decreases s.len() - i,
{
    if i < 0 || i >= s.len() {
        None
    } else if s[i] == '"' {
        Some((Seq::<char>::empty(), i + 1))
    } else if s[i] == '\\' {
        match p_escape(s, i + 1) {
            Some((c, n)) => match p_str_body(s, n) {
                Some((cs, m)) => Some((seq![c] + cs, m)),
                None => None,
            },
            None => None,
        }
    } else if (s[i] as u32) >= 32 {
        match p_str_body(s, i + 1) {
            Some((cs, m)) => Some((seq![s[i]] + cs, m)),
            None => None,
        }
    } else {
        None
    }
}

/// Reads a number token at `i`: the longest run of number characters, if
/// it is a well-formed token.
pub open spec fn p_number(s: Seq<char>, i: int) -> Option<(Seq<char>, int)> {
    let e = numish_end(s, i);
    let t = s.subrange(i, e);
    if wf_num(t) {
        Some((t, e))
    } else {
        None
    }
}

/// Reads one value starting at `i`, leading whitespace allowed: the value
/// and the position after it. The fuel bounds the nesting depth; the
/// executable parser passes the text length, which always suffices.
pub open spec fn p_value(s: Seq<char>, i: int, fuel: nat) -> Option<(JsonV, int)>
    decreases fuel, 0int,
{
    let j = skip_ws(s, i);
    if j >= s.len() {
        None
    } else if s[j] == 'n' {
        if j + 4 <= s.len() && s[j + 1] == 'u' && s[j + 2] == 'l' && s[j + 3] == 'l' {
            Some((JsonV::Null, j + 4))
        } else {
            None
        }
    } else if s[j] == 't' {
        if j + 4 <= s.len() && s[j + 1] == 'r' && s[j + 2] == 'u' && s[j + 3] == 'e' {
            Some((JsonV::Bool(true), j + 4))
        } else {
            None
        }
    } else if s[j] == 'f' {
        if j + 5 <= s.len() && s[j + 1] == 'a' && s[j + 2] == 'l' && s[j + 3] == 's' && s[j + 4]
            == 'e' {
            Some((JsonV::Bool(false), j + 5))
        } else {
            None
        }
    } else if s[j] == '"' {
        match p_str_body(s, j + 1) {
            Some((cs, n)) => Some((JsonV::Str(cs), n)),
            None => None,
        }
    } else if s[j] == '[' {
        let k = skip_ws(s, j + 1);
        if k < s.len() && s[k] == ']' {
            Some((JsonV::Arr(Seq::empty()), k + 1))
        } else if fuel == 0 {
            None
        } else {
            match p_items(s, k, (fuel - 1) as nat) {
                Some((vs, m)) => Some((JsonV::Arr(vs), m)),
                None => None,
            }
        }
    } else if s[j] == '{' {
        let k = skip_ws(s, j + 1);
        if k < s.len() && s[k] == '}' {
            Some((JsonV::Obj(Seq::empty()), k + 1))
        } else if fuel == 0 {
            None
        } else {
            match p_members(s, k, (fuel - 1) as nat) {
                Some((ms, m)) => Some((JsonV::Obj(ms), m)),
                None => None,
            }
        }
    } else if s[j] == '-' || is_digit(s[j]) {
        match p_number(s, j) {
            Some((t, n)) => Some((JsonV::Num(t), n)),
            None => None,
        }
    } else {
        None
    }
}

/// Reads the elements of a non-empty array from `i`, up to and over the
/// closing bracket.
pub open spec fn p_items(s: Seq<char>, i: int, fuel: nat) -> Option<(Seq<JsonV>, int)>
    decreases fuel, 1int,
{
    match p_value(s, i, fuel) {
        Some((v, n)) => {
            let k = skip_ws(s, n);
            if k < s.len() && s[k] == ',' {
                if fuel == 0 {
                    None
                } else {
                    match p_items(s, k + 1, (fuel - 1) as nat) {
                        Some((vs, m)) => Some((seq![v] + vs, m)),
                        None => None,
                    }
                }
            } else if k < s.len() && s[k] == ']' {
                Some((seq![v], k + 1))
            } else {
                None
            }
        },
        None => None,
    }
}

/// Reads the members of a non-empty object from `i`, which must already
/// stand at the opening quote of a key, up to and over the closing brace.
pub open spec fn p_members(s: Seq<char>, i: int, fuel: nat) -> Option<
    (Seq<(Seq<char>, JsonV)>, int),
>
    decreases fuel, 1int,
{
    if 0 <= i < s.len() && s[i] == '"' {
        match p_str_body(s, i + 1) {
            Some((key, n)) => {
                let k = skip_ws(s, n);
                if k < s.len() && s[k] == ':' {
                    match p_value(s, k + 1, fuel) {
                        Some((v, n2)) => {
                            let k2 = skip_ws(s, n2);
                            if k2 < s.len() && s[k2] == ',' {
                                if fuel == 0 {
                                    None
                                } else {
                                    let k3 = skip_ws(s, k2 + 1);
                                    match p_members(s, k3, (fuel - 1) as nat) {
                                        Some((ms, m)) => Some((seq![(key, v)] + ms, m)),
                                        None => None,
                                    }
                                }
                            } else if k2 < s.len() && s[k2] == '}' {
                                Some((seq![(key, v)], k2 + 1))
                            } else {
                                None
                            }
                        },
                        None => None,
                    }
                } else {
                    None
                }
            },
            None => None,
        }
    } else {
        None
    }
}

/// Reads a whole document: one value, with nothing but whitespace after
/// it.
pub open spec fn p_doc(s: Seq<char>) -> Option<JsonV> {
    match p_value(s, 0, s.len() as nat) {
        Some((v, n)) => if skip_ws(s, n) == s.len() {
            Some(v)
        } else {
            None
        },
        None => None,
    }
}


// ---------------------------------------------------------------------------
// The executable parser.
// ---------------------------------------------------------------------------

/// Whether `c` is JSON whitespace.
fn is_ws_exec(c: char) -> (r: bool)
    ensures
        r == is_ws(c),
{
    c == ' ' || c == '\t' || c == '\n' || c == '\r'
}

/// Whether `c` is a decimal digit.
pub fn is_digit_exec(c: char) -> (r: bool)
    ensures
        r == is_digit(c),
{
    '0' <= c && c <= '9'
}

/// Whether `c` can appear in a number token.
fn numish_exec(c: char) -> (r: bool)
    ensures
        r == numish(c),
{
    is_digit_exec(c) || c == '-' || c == '+' || c == '.' || c == 'e' || c == 'E'
}

/// Whether `c` is a hexadecimal digit.
fn is_hex_exec(c: char) -> (r: bool)
    ensures
        r == is_hex(c),
{
    is_digit_exec(c) || ('a' <= c && c <= 'f') || ('A' <= c && c <= 'F')
}

/// The value of a hexadecimal digit.
fn hex_val_exec(c: char) -> (r: u32)
    ensures
        r as nat == hex_val(c),
{
    if is_digit_exec(c) {
        c as u32 - '0' as u32
    } else if 'a' <= c && c <= 'f' {
        c as u32 - 'a' as u32 + 10
    } else if 'A' <= c && c <= 'F' {
        c as u32 - 'A' as u32 + 10
    } else {
        0
    }
}

/// Skips whitespace from `i` on.
fn pe_skip_ws(s: &Vec<char>, i: usize) -> (r: usize)
    requires
        i <= s@.len(),
    ensures
        r as int == skip_ws(s@, i as int),
        i <= r <= s@.len(),
{
    let mut k = i;
    while k < s.len() && is_ws_exec(s[k])
        invariant
            i <= k <= s@.len(),
            skip_ws(s@, i as int) == skip_ws(s@, k as int),
        decreases s@.len() - k,
    {
        k += 1;
    }
    k
}

/// Finds the end of a run of number characters from `i` on.
fn pe_numish_end(s: &Vec<char>, i: usize) -> (r: usize)
    requires
        i <= s@.len(),
    ensures
        r as int == numish_end(s@, i as int),
        i <= r <= s@.len(),
{
    let mut k = i;
    while k < s.len() && numish_exec(s[k])
        invariant
            i <= k <= s@.len(),
            numish_end(s@, i as int) == numish_end(s@, k as int),
        decreases s@.len() - k,
    {
        k += 1;
    }
    k
}

/// One step of the number-token automaton.
fn num_step_exec(st: NumState, c: char) -> (r: Option<NumState>)
    ensures
        r == num_step(st, c),
{
    match st {
        NumState::Start => if c == '-' {
            Some(NumState::Minus)
        } else if c == '0' {
            Some(NumState::Zero)
        } else if is_digit_exec(c) {
            Some(NumState::Digits)
        } else {
            None
        },
        NumState::Minus => if c == '0' {
            Some(NumState::Zero)
        } else if is_digit_exec(c) {
            Some(NumState::Digits)
        } else {
            None
        },
        NumState::Zero => if c == '.' {
            Some(NumState::Dot)
        } else if c == 'e' || c == 'E' {
            Some(NumState::Exp)
        } else {
            None
        },
        NumState::Digits => if is_digit_exec(c) {
            Some(NumState::Digits)
        } else if c == '.' {
            Some(NumState::Dot)
        } else if c == 'e' || c == 'E' {
            Some(NumState::Exp)
        } else {
            None
        },
        NumState::Dot => if is_digit_exec(c) {
            Some(NumState::Frac)
        } else {
            None
        },
        NumState::Frac => if is_digit_exec(c) {
            Some(NumState::Frac)
        } else if c == 'e' || c == 'E' {
            Some(NumState::Exp)
        } else {
            None
        },
        NumState::Exp => if c == '+' || c == '-' {
            Some(NumState::ExpSign)
        } else if is_digit_exec(c) {
            Some(NumState::ExpDigits)
        } else {
            None
        },
        NumState::ExpSign => if is_digit_exec(c) {
            Some(NumState::ExpDigits)
        } else {
            None
        },
        NumState::ExpDigits => if is_digit_exec(c) {
            Some(NumState::ExpDigits)
        } else {
            None
        },
    }
}

/// Whether `t` is a well-formed JSON number token.
pub fn check_num(t: &Vec<char>) -> (r: bool)
    ensures
        r == wf_num(t@),
{
    let mut st = NumState::Start;
    let mut k: usize = 0;
    proof {
        assert(t@.skip(0) =~= t@);
    }
    while k < t.len()
        invariant
            k <= t@.len(),
            wf_num(t@) == num_run(t@.skip(k as int), st),
        decreases t@.len() - k,
    {
        let c = t[k];
        proof {
            assert(t@.skip(k as int)[0] == t@[k as int]);
            assert(t@.skip(k as int).drop_first() =~= t@.skip(k as int + 1));
        }
        match num_step_exec(st, c) {
            Some(st2) => {
                st = st2;
                k += 1;
            },
            None => {
                return false;
            },
        }
    }
    proof {
        assert(t@.skip(t@.len() as int).len() == 0);
    }
    match st {
        NumState::Zero | NumState::Digits | NumState::Frac | NumState::ExpDigits => true,
        _ => false,
    }
}

/// Reads one escape, with `i` just after the backslash.
fn pe_escape(s: &Vec<char>, i: usize) -> (r: Option<(char, usize)>)
    requires
        i <= s@.len(),
    ensures
        ({
            let sp = p_escape(s@, i as int);
            match r {
                Some((c, n)) => sp == Some((c, n as int)) && i < n <= s@.len(),
                None => sp is None,
            }
        }),
{
    if i >= s.len() {
        return None;
    }
    let c = s[i];
    if c == '"' {
        Some(('"', i + 1))
    } else if c == '\\' {
        Some(('\\', i + 1))
    } else if c == '/' {
        Some(('/', i + 1))
    } else if c == 'b' {
        Some(('\u{08}', i + 1))
    } else if c == 'f' {
        Some(('\u{0C}', i + 1))
    } else if c == 'n' {
        Some(('\n', i + 1))
    } else if c == 'r' {
        Some(('\r', i + 1))
    } else if c == 't' {
        Some(('\t', i + 1))
    } else if c == 'u' {
        if s.len() - i >= 5 && is_hex_exec(s[i + 1]) && is_hex_exec(s[i + 2]) && is_hex_exec(
            s[i + 3],
        ) && is_hex_exec(s[i + 4]) {
            let v = hex_val_exec(s[i + 1]) * 4096 + hex_val_exec(s[i + 2]) * 256 + hex_val_exec(
                s[i + 3],
            ) * 16 + hex_val_exec(s[i + 4]);
            if v < 128 {
                Some(((v as u8) as char, i + 5))
            } else {
                None
            }
        } else {
            None
        }
    } else {
        None
    }
}

/// Reads a string body up to and over its closing quote.
fn pe_str_body(s: &Vec<char>, i: usize) -> (r: Option<(Vec<char>, usize)>)
    requires
        i <= s@.len(),
    ensures
        ({
            let sp = p_str_body(s@, i as int);
            match r {
                Some((cs, n)) => sp == Some((cs@, n as int)) && i < n <= s@.len(),
                None => sp is None,
            }
        }),
    decreases s@.len() - i,
{
    if i >= s.len() {
        return None;
    }
    let c = s[i];
    if c == '"' {
        Some((Vec::new(), i + 1))
    } else if c == '\\' {
        match pe_escape(s, i + 1) {
            Some((ch, n)) => match pe_str_body(s, n) {
                Some((mut cs, m)) => {
                    cs.insert(0, ch);
                    proof {
                        assert(cs@ =~= seq![ch] + cs@.drop_first());
                    }
                    Some((cs, m))
                },
                None => None,
            },
            None => None,
        }
    } else if (c as u32) >= 32 {
        match pe_str_body(s, i + 1) {
            Some((mut cs, m)) => {
                cs.insert(0, c);
                proof {
                    assert(cs@ =~= seq![c] + cs@.drop_first());
                }
                Some((cs, m))
            },
            None => None,
        }
    } else {
        None
    }
}

/// Reads a number token at `i`.
fn pe_number(s: &Vec<char>, i: usize) -> (r: Option<(Vec<char>, usize)>)
    requires
        i <= s@.len(),
    ensures
        ({
            let sp = p_number(s@, i as int);
            match r {
                Some((t, n)) => sp == Some((t@, n as int)) && i <= n <= s@.len(),
                None => sp is None,
            }
        }),
{
    let e = pe_numish_end(s, i);
    let mut t: Vec<char> = Vec::new();
    let mut k = i;
    while k < e
        invariant
            i <= k <= e <= s@.len(),
            t@ =~= s@.subrange(i as int, k as int),
        decreases e - k,
    {
        t.push(s[k]);
        proof {
            assert(t@ =~= s@.subrange(i as int, k as int + 1));
        }
        k += 1;
    }
    proof {
        assert(t@ =~= s@.subrange(i as int, e as int));
    }
    if check_num(&t) {
        Some((t, e))
    } else {
        None
    }
}

/// Reads one value starting at `i`, leading whitespace allowed.
pub fn pe_value(s: &Vec<char>, i: usize, fuel: usize) -> (r: Option<(Json, usize)>)
    requires
        i <= s@.len(),
    ensures
        ({
            let sp = p_value(s@, i as int, fuel as nat);
            match r {
                Some((x, n)) => sp == Some((jv(x), n as int)) && i <= n <= s@.len(),
                None => sp is None,
            }
        }),
    decreases fuel, 0int,
{
    let j = pe_skip_ws(s, i);
    if j >= s.len() {
        return None;
    }
    let c = s[j];
    if c == 'n' {
        if s.len() - j >= 4 && s[j + 1] == 'u' && s[j + 2] == 'l' && s[j + 3] == 'l' {
            Some((Json::Null, j + 4))
        } else {
            None
        }
    } else if c == 't' {
        if s.len() - j >= 4 && s[j + 1] == 'r' && s[j + 2] == 'u' && s[j + 3] == 'e' {
            Some((Json::Bool(true), j + 4))
        } else {
            None
        }
    } else if c == 'f' {
        if s.len() - j >= 5 && s[j + 1] == 'a' && s[j + 2] == 'l' && s[j + 3] == 's' && s[j + 4]
            == 'e' {
            Some((Json::Bool(false), j + 5))
        } else {
            None
        }
    } else if c == '"' {
        match pe_str_body(s, j + 1) {
            Some((cs, n)) => Some((Json::Str(cs), n)),
            None => None,
        }
    } else if c == '[' {
        let k = pe_skip_ws(s, j + 1);
        if k < s.len() && s[k] == ']' {
            let items: Vec<Json> = Vec::new();
            proof {
                assert(jv_seq(items@) =~= Seq::<JsonV>::empty());
            }
            Some((Json::Arr(items), k + 1))
        } else if fuel == 0 {
            None
        } else {
            match pe_items(s, k, fuel - 1) {
                Some((vs, m)) => Some((Json::Arr(vs), m)),
                None => None,
            }
        }
    } else if c == '{' {
        let k = pe_skip_ws(s, j + 1);
        if k < s.len() && s[k] == '}' {
            let ms: Vec<Member> = Vec::new();
            proof {
                assert(jv_mem_seq(ms@) =~= Seq::<(Seq<char>, JsonV)>::empty());
            }
            Some((Json::Obj(ms), k + 1))
        } else if fuel == 0 {
            None
        } else {
            match pe_members(s, k, fuel - 1) {
                Some((ms, m)) => Some((Json::Obj(ms), m)),
                None => None,
            }
        }
    } else if c == '-' || is_digit_exec(c) {
        match pe_number(s, j) {
            Some((t, n)) => Some((Json::Num(t), n)),
            None => None,
        }
    } else {
        None
    }
}

/// Reads the elements of a non-empty array from `i`.
fn pe_items(s: &Vec<char>, i: usize, fuel: usize) -> (r: Option<(Vec<Json>, usize)>)
    requires
        i <= s@.len(),
    ensures
        ({
            let sp = p_items(s@, i as int, fuel as nat);
            match r {
                Some((xs, n)) => sp == Some((jv_seq(xs@), n as int)) && i <= n <= s@.len(),
                None => sp is None,
            }
        }),
    decreases fuel, 1int,
{
    match pe_value(s, i, fuel) {
        Some((v, n)) => {
            let k = pe_skip_ws(s, n);
            if k < s.len() && s[k] == ',' {
                if fuel == 0 {
                    None
                } else {
                    match pe_items(s, k + 1, fuel - 1) {
                        Some((mut xs, m)) => {
                            let ghost tail = xs@;
                            xs.insert(0, v);
                            proof {
                                assert(jv_seq(xs@) =~= seq![jv(xs@[0])] + jv_seq(tail));
                            }
                            Some((xs, m))
                        },
                        None => None,
                    }
                }
            } else if k < s.len() && s[k] == ']' {
                let mut xs: Vec<Json> = Vec::new();
                xs.push(v);
                proof {
                    assert(jv_seq(xs@) =~= seq![jv(xs@[0])]);
                }
                Some((xs, k + 1))
            } else {
                None
            }
        },
        None => None,
    }
}

/// Reads the members of a non-empty object from `i`, which must stand at
/// the opening quote of a key.
fn pe_members(s: &Vec<char>, i: usize, fuel: usize) -> (r: Option<(Vec<Member>, usize)>)
    requires
        i <= s@.len(),
    ensures
        ({
            let sp = p_members(s@, i as int, fuel as nat);
            match r {
                Some((xs, n)) => sp == Some((jv_mem_seq(xs@), n as int)) && i <= n <= s@.len(),
                None => sp is None,
            }
        }),
    decreases fuel, 1int,
{
    if i < s.len() && s[i] == '"' {
        match pe_str_body(s, i + 1) {
            Some((key, n)) => {
                let k = pe_skip_ws(s, n);
                if k < s.len() && s[k] == ':' {
                    match pe_value(s, k + 1, fuel) {
                        Some((v, n2)) => {
                            let k2 = pe_skip_ws(s, n2);
                            if k2 < s.len() && s[k2] == ',' {
                                if fuel == 0 {
                                    None
                                } else {
                                    let k3 = pe_skip_ws(s, k2 + 1);
                                    match pe_members(s, k3, fuel - 1) {
                                        Some((mut xs, m)) => {
                                            let ghost tail = xs@;
                                            xs.insert(0, Member { key, value: v });
                                            proof {
                                                assert(jv_mem_seq(xs@) =~= seq![
                                                    (xs@[0].key@, jv(xs@[0].value)),
                                                ] + jv_mem_seq(tail));
                                            }
                                            Some((xs, m))
                                        },
                                        None => None,
                                    }
                                }
                            } else if k2 < s.len() && s[k2] == '}' {
                                let mut xs: Vec<Member> = Vec::new();
                                xs.push(Member { key, value: v });
                                proof {
                                    assert(jv_mem_seq(xs@) =~= seq![
                                        (xs@[0].key@, jv(xs@[0].value)),
                                    ]);
                                }
                                Some((xs, k2 + 1))
                            } else {
                                None
                            }
                        },
                        None => None,
                    }
                } else {
                    None
                }
            },
            None => None,
        }
    } else {
        None
    }
}

/// Reads a whole document: one value with nothing but whitespace after it.
pub fn parse_json(s: &Vec<char>) -> (r: Option<Json>)
    ensures
        ({
            let sp = p_doc(s@);
            match r {
                Some(x) => sp == Some(jv(x)),
                None => sp is None,
            }
        }),
{
    let fuel = s.len();
    match pe_value(s, 0, fuel) {
        Some((x, n)) => {
            let k = pe_skip_ws(s, n);
            if k == s.len() {
                Some(x)
            } else {
                None
            }
        },
        None => None,
    }
}


// ---------------------------------------------------------------------------
// Parsing inverts serialization.
// ---------------------------------------------------------------------------

/// `t` stands in `s` at position `i`.
pub open spec fn text_at(s: Seq<char>, i: int, t: Seq<char>) -> bool {
    0 <= i && i + t.len() <= s.len() && s.subrange(i, i + t.len()) == t
}

/// The characters of a text that stands at `i`.
proof fn lemma_text_at_index(s: Seq<char>, i: int, t: Seq<char>)
    requires
        text_at(s, i, t),
    ensures
        forall|k: int| 0 <= k < t.len() ==> s[i + k] == #[trigger] t[k],
{
    assert forall|k: int| 0 <= k < t.len() implies s[i + k] == #[trigger] t[k] by {
        assert(s.subrange(i, i + t.len())[k] == s[i + k]);
    }
}

/// A concatenation stands at `i` exactly when its parts stand in place.
proof fn lemma_text_at_split(s: Seq<char>, i: int, a: Seq<char>, b: Seq<char>)
    requires
        text_at(s, i, a + b),
    ensures
        text_at(s, i, a),
        text_at(s, i + a.len(), b),
{
    lemma_text_at_index(s, i, a + b);
    assert forall|k: int| 0 <= k < a.len() implies s.subrange(i, i + a.len())[k] == a[k] by {
        assert((a + b)[k] == a[k]);
        assert(s[i + k] == (a + b)[k]);
    }
    assert(s.subrange(i, i + a.len()) =~= a);
    assert forall|k: int| 0 <= k < b.len() implies s.subrange(
        i + a.len(),
        i + a.len() + b.len(),
    )[k] == b[k] by {
        assert((a + b)[a.len() + k] == b[k]);
        assert(s[i + (a.len() + k)] == (a + b)[a.len() + k]);
    }
    assert(s.subrange(i + a.len(), i + a.len() + b.len()) =~= b);
}

/// The character of a one-character text that stands at `p`.
proof fn lemma_text_at_char(s: Seq<char>, p: int, c: char)
    requires
        text_at(s, p, seq![c]),
    ensures
        s[p] == c,
{
    lemma_text_at_index(s, p, seq![c]);
    assert(seq![c][0] == c);
    assert(s[p + 0] == c);
}

/// Every character consumed by the number automaton is a number character.
proof fn lemma_run_numish(t: Seq<char>, st: NumState)
    requires
        num_run(t, st),
    ensures
        forall|k: int| 0 <= k < t.len() ==> numish(#[trigger] t[k]),
    decreases t.len(),
{
    if t.len() > 0 {
        lemma_run_numish(t.drop_first(), num_step(st, t[0])->0);
        assert forall|k: int| 0 <= k < t.len() implies numish(#[trigger] t[k]) by {
            if k >= 1 {
                assert(t.drop_first()[k - 1] == t[k]);
                assert(numish(t.drop_first()[k - 1]));
            }
        }
    }
}

/// A run of number characters ending at a delimiter ends exactly there.
proof fn lemma_numish_end_exact(s: Seq<char>, i: int, e: int)
    requires
        0 <= i <= e <= s.len(),
        forall|k: int| i <= k < e ==> numish(#[trigger] s[k]),
        e == s.len() || !numish(s[e]),
    ensures
        numish_end(s, i) == e,
    decreases e - i,
{
    if i < e {
        lemma_numish_end_exact(s, i + 1, e);
    }
}

/// A well-formed number token starts with a sign or a digit.
proof fn lemma_wf_num_head(t: Seq<char>)
    requires
        wf_num(t),
    ensures
        t.len() > 0,
        t[0] == '-' || is_digit(t[0]),
{
}

/// A well-formed token standing at `i`, followed by a delimiter, is what
/// the number reader returns.
proof fn lemma_num_complete(s: Seq<char>, i: int, t: Seq<char>)
    requires
        wf_num(t),
        text_at(s, i, t),
        i + t.len() == s.len() || !numish(s[i + t.len()]),
    ensures
        p_number(s, i) == Some((t, i + t.len())),
{
    lemma_text_at_index(s, i, t);
    lemma_run_numish(t, NumState::Start);
    assert forall|k: int| i <= k < i + t.len() implies numish(#[trigger] s[k]) by {
        assert(s[k] == t[k - i]);
    }
    lemma_numish_end_exact(s, i, i + t.len());
    assert(s.subrange(i, i + t.len()) == t);
}

/// The serialized form of each character round-trips through one step of
/// the string reader; chained over a whole body that ends at its closing
/// quote, the reader returns the body.
proof fn lemma_str_complete(s: Seq<char>, i: int, cs: Seq<char>)
    requires
        text_at(s, i, esc_str(cs)),
        i + esc_str(cs).len() < s.len(),
        s[i + esc_str(cs).len()] == '"',
    ensures
        p_str_body(s, i) == Some((cs, i + esc_str(cs).len() + 1)),
    decreases cs.len(),
{
    lemma_text_at_index(s, i, esc_str(cs));
    if cs.len() == 0 {
        assert(s[i] == '"');
    } else {
        let c0 = cs[0];
        let cs1 = cs.drop_first();
        assert(esc_str(cs) == esc_char(c0) + esc_str(cs1));
        lemma_text_at_split(s, i, esc_char(c0), esc_str(cs1));
        lemma_text_at_index(s, i, esc_char(c0));
        let d = esc_char(c0).len();
        assert(i + d + esc_str(cs1).len() == i + esc_str(cs).len());
        if c0 == '"' {
            assert(esc_char(c0)[0] == '\\' && esc_char(c0)[1] == '"');
            assert(s[i + 0] == '\\' && s[i + 1] == '"');
            assert(p_escape(s, i + 1) == Some(('"', i + 2)));
            lemma_str_complete(s, i + 2, cs1);
            assert(seq![c0] + cs1 =~= cs);
        } else if c0 == '\\' {
            assert(esc_char(c0)[0] == '\\' && esc_char(c0)[1] == '\\');
            assert(s[i + 0] == '\\' && s[i + 1] == '\\');
            assert(p_escape(s, i + 1) == Some(('\\', i + 2)));
            lemma_str_complete(s, i + 2, cs1);
            assert(seq![c0] + cs1 =~= cs);
        } else if (c0 as u32) < 32 {
            let h = (c0 as u32 / 16) as nat;
            let l = (c0 as u32 % 16) as nat;
            assert(esc_char(c0)[0] == '\\' && esc_char(c0)[1] == 'u' && esc_char(c0)[2] == '0'
                && esc_char(c0)[3] == '0' && esc_char(c0)[4] == hex_char(h) && esc_char(c0)[5]
                == hex_char(l));
            assert(s[i + 0] == '\\' && s[i + 1] == 'u' && s[i + 2] == '0' && s[i + 3] == '0');
            assert(s[i + 4] == hex_char(h) && s[i + 5] == hex_char(l));
            lemma_hex_round(h);
            lemma_hex_round(l);
            assert(hex_val(s[i + 2]) == 0 && hex_val(s[i + 3]) == 0);
            assert(is_hex(s[i + 2]) && is_hex(s[i + 3]));
            let v = hex_val(s[i + 2]) * 4096 + hex_val(s[i + 3]) * 256 + hex_val(s[i + 4]) * 16
                + hex_val(s[i + 5]);
            assert(v == 16 * h + l);
            assert(v == c0 as u32);
            assert(v < 128);
            let u: u32 = c0 as u32;
            vstd::utf8::char_u32_cast(c0, u);
            assert((v as u8) as u32 == u);
            assert((v as u8) as char == c0) by {
                assert((v as u8) as u32 == c0 as u32);
            }
            assert(p_escape(s, i + 1) == Some((c0, i + 6)));
            lemma_str_complete(s, i + 6, cs1);
            assert(seq![c0] + cs1 =~= cs);
        } else {
            assert(esc_char(c0)[0] == c0);
            assert(s[i + 0] == c0);
            assert(c0 != '"' && c0 != '\\' && (c0 as u32) >= 32);
            lemma_str_complete(s, i + 1, cs1);
            assert(seq![c0] + cs1 =~= cs);
        }
    }
}

/// Hexadecimal digits round-trip through their characters.
proof fn lemma_hex_round(n: nat)
    requires
        n < 16,
    ensures
        is_hex(hex_char(n)),
        hex_val(hex_char(n)) == n,
{
}

/// The first character of the canonical text of a well-formed value.
proof fn lemma_ser_head(j: JsonV)
    requires
        wf_v(j),
    ensures
        ser_v(j).len() > 0,
        ser_v(j)[0] == 'n' || ser_v(j)[0] == 't' || ser_v(j)[0] == 'f' || ser_v(j)[0] == '"'
            || ser_v(j)[0] == '[' || ser_v(j)[0] == '{' || ser_v(j)[0] == '-' || is_digit(
            ser_v(j)[0],
        ),
        !is_ws(ser_v(j)[0]),
        ser_v(j)[0] != ']' && ser_v(j)[0] != '}' && ser_v(j)[0] != ',' && ser_v(j)[0] != ':',
{
    match j {
        JsonV::Num(t) => {
            lemma_wf_num_head(t);
        },
        _ => {},
    }
}

/// The canonical text of a well-formed value standing at `i`, followed by
/// a delimiter, is read back as that value.
proof fn lemma_value_complete(s: Seq<char>, i: int, j: JsonV, fuel: nat)
    requires
        wf_v(j),
        text_at(s, i, ser_v(j)),
        i + ser_v(j).len() == s.len() || !numish(s[i + ser_v(j).len()]),
        fuel >= ser_v(j).len(),
    ensures
        p_value(s, i, fuel) == Some((j, i + ser_v(j).len())),
    decreases j,
{
    lemma_text_at_index(s, i, ser_v(j));
    lemma_ser_head(j);
    assert(skip_ws(s, i) == i);
    let e = i + ser_v(j).len();
    match j {
        JsonV::Null => {
            assert(ser_v(j)[0] == 'n' && ser_v(j)[1] == 'u' && ser_v(j)[2] == 'l' && ser_v(
                j,
            )[3] == 'l');
            assert(s[i + 0] == 'n' && s[i + 1] == 'u' && s[i + 2] == 'l' && s[i + 3] == 'l');
            assert(p_value(s, i, fuel) == Some((j, e)));
        },
        JsonV::Bool(b) => {
            if b {
                assert(ser_v(j)[0] == 't' && ser_v(j)[1] == 'r' && ser_v(j)[2] == 'u' && ser_v(
                    j,
                )[3] == 'e');
                assert(s[i + 0] == 't' && s[i + 1] == 'r' && s[i + 2] == 'u' && s[i + 3] == 'e');
                assert(p_value(s, i, fuel) == Some((j, e)));
            } else {
                assert(ser_v(j)[0] == 'f' && ser_v(j)[1] == 'a' && ser_v(j)[2] == 'l' && ser_v(
                    j,
                )[3] == 's' && ser_v(j)[4] == 'e');
                assert(s[i + 0] == 'f' && s[i + 1] == 'a' && s[i + 2] == 'l' && s[i + 3] == 's'
                    && s[i + 4] == 'e');
                assert(p_value(s, i, fuel) == Some((j, e)));
            }
        },
        JsonV::Num(t) => {
            lemma_wf_num_head(t);
            assert(s[i + 0] == t[0]);
            assert(s[i] == t[0]);
            lemma_num_complete(s, i, t);
            assert(s[i] != 'n' && s[i] != 't' && s[i] != 'f' && s[i] != '"' && s[i] != '['
                && s[i] != '{');
            assert(p_value(s, i, fuel) == Some((j, e)));
        },
        JsonV::Str(cs) => {
            assert(ser_v(j)[0] == '"');
            assert(s[i + 0] == '"');
            assert(s[i] == '"');
            assert(ser_v(j) == seq!['"'] + esc_str(cs) + seq!['"']);
            lemma_text_at_split(s, i, seq!['"'] + esc_str(cs), seq!['"']);
            lemma_text_at_split(s, i, seq!['"'], esc_str(cs));
            lemma_text_at_char(s, i + (1 + esc_str(cs).len()), '"');
            assert(s[i + 1 + esc_str(cs).len()] == '"');
            lemma_str_complete(s, i + 1, cs);
            assert(p_value(s, i, fuel) == Some((j, e)));
        },
        JsonV::Arr(vs) => {
            assert(ser_v(j)[0] == '[');
            assert(s[i + 0] == '[');
            assert(s[i] == '[');
            assert(ser_v(j) == seq!['['] + ser_items(vs) + seq![']']);
            lemma_text_at_split(s, i, seq!['['] + ser_items(vs), seq![']']);
            lemma_text_at_split(s, i, seq!['['], ser_items(vs));
            lemma_text_at_char(s, i + (1 + ser_items(vs).len()), ']');
            assert(s[i + 1 + ser_items(vs).len()] == ']');
            if vs.len() == 0 {
                assert(vs =~= Seq::<JsonV>::empty());
                assert(ser_items(vs).len() == 0);
                lemma_text_at_char(s, i + 1, ']');
                assert(s[i + 1] == ']');
                assert(i + 1 + ser_items(vs).len() == i + 1);
                assert(!is_ws(s[i + 1]));
                assert(skip_ws(s, i + 1) == i + 1);
            } else {
                lemma_ser_head(vs[0]);
                assert(ser_items(vs)[0] == ser_v(vs[0])[0]);
                lemma_text_at_index(s, i + 1, ser_items(vs));
                assert(s[i + 1 + 0] == ser_items(vs)[0]);
                assert(s[i + 1] == ser_items(vs)[0]);
                assert(!is_ws(s[i + 1]));
                assert(skip_ws(s, i + 1) == i + 1);
                assert(s[i + 1] != ']');
                lemma_items_complete(s, i + 1, vs, (fuel - 1) as nat);
                assert(p_value(s, i, fuel) == Some((j, e)));
            }
        },
        JsonV::Obj(ms) => {
            assert(ser_v(j)[0] == '{');
            assert(s[i + 0] == '{');
            assert(s[i] == '{');
            assert(ser_v(j) == seq!['{'] + ser_members(ms) + seq!['}']);
            lemma_text_at_split(s, i, seq!['{'] + ser_members(ms), seq!['}']);
            lemma_text_at_split(s, i, seq!['{'], ser_members(ms));
            lemma_text_at_char(s, i + (1 + ser_members(ms).len()), '}');
            assert(s[i + 1 + ser_members(ms).len()] == '}');
            if ms.len() == 0 {
                assert(ms =~= Seq::<(Seq<char>, JsonV)>::empty());
                assert(ser_members(ms).len() == 0);
                lemma_text_at_char(s, i + 1, '}');
                assert(s[i + 1] == '}');
                assert(!is_ws(s[i + 1]));
                assert(skip_ws(s, i + 1) == i + 1);
                assert(p_value(s, i, fuel) == Some((j, e)));
            } else {
                assert(ser_member(ms[0]).len() > 0);
                assert(ser_members(ms)[0] == ser_member(ms[0])[0]);
                assert(ser_member(ms[0])[0] == '"');
                lemma_text_at_index(s, i + 1, ser_members(ms));
                assert(s[i + 1 + 0] == ser_members(ms)[0]);
                assert(s[i + 1] == '"');
                assert(skip_ws(s, i + 1) == i + 1);
                lemma_members_complete(s, i + 1, ms, (fuel - 1) as nat);
                assert(p_value(s, i, fuel) == Some((j, e)));
            }
        },
    }
}

/// The canonical text of non-empty array elements standing at `i`, with
/// the closing bracket right after, is read back as those elements.
proof fn lemma_items_complete(s: Seq<char>, i: int, vs: Seq<JsonV>, fuel: nat)
    requires
        vs.len() >= 1,
        wf_items(vs),
        text_at(s, i, ser_items(vs)),
        i + ser_items(vs).len() < s.len(),
        s[i + ser_items(vs).len()] == ']',
        fuel >= ser_items(vs).len() + 1,
    ensures
        p_items(s, i, fuel) == Some((vs, i + ser_items(vs).len() + 1)),
    decreases vs,
{
    let v0 = vs[0];
    let e = i + ser_items(vs).len();
    if vs.len() == 1 {
        assert(ser_items(vs) == ser_v(v0));
        lemma_value_complete(s, i, v0, fuel);
        assert(skip_ws(s, e) == e);
        assert(seq![v0] =~= vs);
    } else {
        let vs1 = vs.drop_first();
        assert(ser_items(vs) == ser_v(v0) + seq![','] + ser_items(vs1));
        lemma_text_at_split(s, i, ser_v(v0) + seq![','], ser_items(vs1));
        lemma_text_at_split(s, i, ser_v(v0), seq![',']);
        lemma_text_at_char(s, i + ser_v(v0).len(), ',');
        let n = i + ser_v(v0).len();
        assert(s[n] == ',');
        lemma_value_complete(s, i, v0, fuel);
        assert(skip_ws(s, n) == n);
        lemma_items_complete(s, n + 1, vs1, (fuel - 1) as nat);
        assert(seq![v0] + vs1 =~= vs);
    }
}

/// The canonical text of non-empty object members standing at `i`, with
/// the closing brace right after, is read back as those members.
proof fn lemma_members_complete(s: Seq<char>, i: int, ms: Seq<(Seq<char>, JsonV)>, fuel: nat)
    requires
        ms.len() >= 1,
        wf_members(ms),
        text_at(s, i, ser_members(ms)),
        i + ser_members(ms).len() < s.len(),
        s[i + ser_members(ms).len()] == '}',
        fuel >= ser_members(ms).len() + 1,
    ensures
        p_members(s, i, fuel) == Some((ms, i + ser_members(ms).len() + 1)),
    decreases ms,
{
    let m0 = ms[0];
    let key = m0.0;
    let v = m0.1;
    let e = i + ser_members(ms).len();
    let dkey = 1 + esc_str(key).len() + 2;
    assert(ser_member(m0) == seq!['"'] + esc_str(key) + seq!['"', ':'] + ser_v(v));
    if ms.len() == 1 {
        assert(ser_members(ms) == ser_member(m0));
        lemma_text_at_split(s, i, seq!['"'] + esc_str(key) + seq!['"', ':'], ser_v(v));
        lemma_text_at_split(s, i, seq!['"'] + esc_str(key), seq!['"', ':']);
        lemma_text_at_split(s, i, seq!['"'], esc_str(key));
        lemma_text_at_char(s, i, '"');
        lemma_text_at_index(s, i + (1 + esc_str(key).len()), seq!['"', ':']);
        assert(seq!['"', ':'][0] == '"' && seq!['"', ':'][1] == ':');
        assert(s[i + (1 + esc_str(key).len()) + 0] == '"');
        assert(s[i + (1 + esc_str(key).len()) + 1] == ':');
        assert(s[i] == '"');
        assert(s[i + 1 + esc_str(key).len()] == '"');
        assert(s[i + 1 + esc_str(key).len() + 1] == ':');
        lemma_str_complete(s, i + 1, key);
        let n = i + 1 + esc_str(key).len() + 1;
        assert(p_str_body(s, i + 1) == Some((key, n)));
        assert(skip_ws(s, n) == n);
        lemma_value_complete(s, n + 1, v, fuel);
        assert(skip_ws(s, e) == e);
        assert((key, v) == m0);
        assert(seq![m0] =~= ms);
    } else {
        let ms1 = ms.drop_first();
        assert(ser_members(ms) == ser_member(m0) + seq![','] + ser_members(ms1));
        lemma_text_at_split(s, i, ser_member(m0) + seq![','], ser_members(ms1));
        lemma_text_at_split(s, i, ser_member(m0), seq![',']);
        lemma_text_at_char(s, i + ser_member(m0).len(), ',');
        lemma_text_at_split(s, i, seq!['"'] + esc_str(key) + seq!['"', ':'], ser_v(v));
        lemma_text_at_split(s, i, seq!['"'] + esc_str(key), seq!['"', ':']);
        lemma_text_at_split(s, i, seq!['"'], esc_str(key));
        lemma_text_at_char(s, i, '"');
        lemma_text_at_index(s, i + (1 + esc_str(key).len()), seq!['"', ':']);
        assert(seq!['"', ':'][0] == '"' && seq!['"', ':'][1] == ':');
        assert(s[i + (1 + esc_str(key).len()) + 0] == '"');
        assert(s[i + (1 + esc_str(key).len()) + 1] == ':');
        assert(s[i] == '"');
        assert(s[i + 1 + esc_str(key).len()] == '"');
        assert(s[i + 1 + esc_str(key).len() + 1] == ':');
        lemma_str_complete(s, i + 1, key);
        let n = i + 1 + esc_str(key).len() + 1;
        assert(p_str_body(s, i + 1) == Some((key, n)));
        assert(skip_ws(s, n) == n);
        let n2 = n + 1 + ser_v(v).len();
        assert(ser_member(m0).len() == 1 + esc_str(key).len() + 2 + ser_v(v).len());
        assert(n2 == i + ser_member(m0).len());
        assert(s[n2] == ',');
        lemma_value_complete(s, n + 1, v, fuel);
        assert(skip_ws(s, n2) == n2);
        let k3 = n2 + 1;
        assert(ser_member(ms1[0]).len() > 0);
        assert(ser_members(ms1)[0] == ser_member(ms1[0])[0]);
        assert(ser_member(ms1[0])[0] == '"');
        assert(k3 == i + (ser_member(m0) + seq![',']).len());
        lemma_text_at_index(s, k3, ser_members(ms1));
        assert(s[k3 + 0] == ser_members(ms1)[0]);
        assert(s[k3] == '"');
        assert(skip_ws(s, k3) == k3);
        lemma_members_complete(s, k3, ms1, (fuel - 1) as nat);
        assert((key, v) == m0);
        assert(seq![m0] + ms1 =~= ms);
    }
}

/// Parsing inverts serialization: the canonical text of any well-formed
/// value is read back as exactly that value.
pub proof fn lemma_json_round_trip(j: JsonV)
    requires
        wf_v(j),
    ensures
        p_doc(ser_v(j)) == Some(j),
{
    let s = ser_v(j);
    lemma_ser_head(j);
    assert(s.subrange(0, s.len() as int) =~= s);
    assert(text_at(s, 0, s));
    lemma_value_complete(s, 0, j, s.len() as nat);
    assert(skip_ws(s, s.len() as int) == s.len());
}



} // verus!
