use vstd::prelude::*;

verus! {

broadcast use vstd::std_specs::vec::axiom_vec_index_decreases;

/// A JSON number, kept exactly as its decimal digits: `mantissa` holds the
/// digit string as an integer and `scale` says how many of its trailing
/// digits stand after the decimal point, so `{ neg: false, mantissa: 80,
/// scale: 2 }` is the text `0.80`.
#[derive(Clone, Copy, Debug, PartialEq, Eq, Structural)]
pub struct JsonNum {
    pub neg: bool,
    pub mantissa: u64,
    pub scale: usize,
}

/// One `key: value` member of a JSON object.
#[derive(Debug, PartialEq)]
pub struct JsonMember {
    pub key: Vec<char>,
    pub value: Json,
}

/// A JSON document. Strings are held as their characters; objects keep their
/// members in order of appearance.
#[derive(Debug, PartialEq)]
pub enum Json {
    Null,
    Bool(bool),
    Num(JsonNum),
    Str(Vec<char>),
    Arr(Vec<Json>),
    Obj(Vec<JsonMember>),
}

/// The mathematical shape of a JSON document, used by every contract.
#[verifier::ext_equal]
pub enum JsonV {
    Null,
    Bool(bool),
    Num(JsonNum),
    Str(Seq<char>),
    Arr(Seq<JsonV>),
    Obj(Seq<(Seq<char>, JsonV)>),
}

pub open spec fn jview(j: Json) -> JsonV
    decreases j,
{
    match j {
        Json::Null => JsonV::Null,
        Json::Bool(b) => JsonV::Bool(b),
        Json::Num(n) => JsonV::Num(n),
        Json::Str(s) => JsonV::Str(s@),
        Json::Arr(a) => JsonV::Arr(jview_list(a, 0)),
        Json::Obj(m) => JsonV::Obj(jview_pairs(m, 0)),
    }
}

pub open spec fn jview_list(a: Vec<Json>, i: int) -> Seq<JsonV>
    decreases a, a.len() - i,
{
    if i < 0 || i >= a.len() {
        Seq::empty()
    } else {
        seq![jview(a[i])] + jview_list(a, i + 1)
    }
}

pub open spec fn jview_pairs(m: Vec<JsonMember>, i: int) -> Seq<(Seq<char>, JsonV)>
    decreases m, m.len() - i,
{
    if i < 0 || i >= m.len() {
        Seq::empty()
    } else {
        seq![(m[i].key@, jview(m[i].value))] + jview_pairs(m, i + 1)
    }
}

impl View for Json {
    type V = JsonV;

    open spec fn view(&self) -> JsonV {
        jview(*self)
    }
}

pub proof fn lemma_jview_list_len(a: Vec<Json>, i: int)
    requires
        0 <= i <= a.len(),
    ensures
        jview_list(a, i).len() == a.len() - i,
    decreases a.len() - i,
{
    if i < a.len() {
        lemma_jview_list_len(a, i + 1);
    }
}

pub proof fn lemma_jview_list_index(a: Vec<Json>, i: int, k: int)
    requires
        0 <= i <= k < a.len(),
    ensures
        jview_list(a, i).len() == a.len() - i,
        jview_list(a, i)[k - i] == jview(a[k]),
    decreases k - i,
{
    lemma_jview_list_len(a, i);
    lemma_jview_list_len(a, i + 1);
    if k > i {
        lemma_jview_list_index(a, i + 1, k);
    }
}

pub proof fn lemma_jview_pairs_len(m: Vec<JsonMember>, i: int)
    requires
        0 <= i <= m.len(),
    ensures
        jview_pairs(m, i).len() == m.len() - i,
    decreases m.len() - i,
{
    if i < m.len() {
        lemma_jview_pairs_len(m, i + 1);
    }
}

pub proof fn lemma_jview_pairs_index(m: Vec<JsonMember>, i: int, k: int)
    requires
        0 <= i <= k < m.len(),
    ensures
        jview_pairs(m, i).len() == m.len() - i,
        jview_pairs(m, i)[k - i] == (m[k].key@, jview(m[k].value)),
    decreases k - i,
{
    lemma_jview_pairs_len(m, i);
    lemma_jview_pairs_len(m, i + 1);
    if k > i {
        lemma_jview_pairs_index(m, i + 1, k);
    }
}

// ---------------------------------------------------------------------------
// Rendering: the one text form this library writes for a JSON document.
// ---------------------------------------------------------------------------

pub open spec fn digit_char(d: int) -> char {
    if d == 0 {
        '0'
    } else if d == 1 {
        '1'
    } else if d == 2 {
        '2'
    } else if d == 3 {
        '3'
    } else if d == 4 {
        '4'
    } else if d == 5 {
        '5'
    } else if d == 6 {
        '6'
    } else if d == 7 {
        '7'
    } else if d == 8 {
        '8'
    } else {
        '9'
    }
}

pub open spec fn hex_char(d: int) -> char {
    if d < 10 {
        digit_char(d)
    } else if d == 10 {
        'a'
    } else if d == 11 {
        'b'
    } else if d == 12 {
        'c'
    } else if d == 13 {
        'd'
    } else if d == 14 {
        'e'
    } else {
        'f'
    }
}

/// The decimal digits of `n`, most significant first, with no leading zero
/// except for `n == 0` itself.
pub open spec fn u64_digits(n: u64) -> Seq<char>
    decreases n,
{
    if n < 10 {
        seq![digit_char(n as int)]
    } else {
        u64_digits(n / 10) + seq![digit_char((n % 10) as int)]
    }
}

/// `ds` with zeros put in front until it is at least `n` characters long.
pub open spec fn pad_zeros(ds: Seq<char>, n: int) -> Seq<char>
    decreases n - ds.len(),
{
    if ds.len() >= n {
        ds
    } else {
        pad_zeros(seq!['0'] + ds, n)
    }
}

pub open spec fn render_num(n: JsonNum) -> Seq<char> {
    let ds = pad_zeros(u64_digits(n.mantissa), n.scale + 1);
    let body = if n.scale == 0 {
        ds
    } else {
        ds.take(ds.len() - n.scale) + seq!['.'] + ds.skip(ds.len() - n.scale)
    };
    if n.neg {
        seq!['-'] + body
    } else {
        body
    }
}

/// How one character appears inside a rendered JSON string: quote and
/// backslash get a backslash escape, control characters a `\u00XX` escape,
/// and every other character stands as itself.
pub open spec fn escape_char(c: char) -> Seq<char> {
    if c == '"' {
        seq!['\\', '"']
    } else if c == '\\' {
        seq!['\\', '\\']
    } else if (c as u32) < 0x20 {
        seq!['\\', 'u', '0', '0', hex_char((c as u32) as int / 16), hex_char((c as u32) as int % 16)]
    } else {
        seq![c]
    }
}

pub open spec fn escape_str(s: Seq<char>) -> Seq<char>
    decreases s.len(),
{
    if s.len() == 0 {
        Seq::empty()
    } else {
        escape_char(s[0]) + escape_str(s.drop_first())
    }
}

pub open spec fn render(v: JsonV) -> Seq<char>
    decreases v,
{
    match v {
        JsonV::Null => seq!['n', 'u', 'l', 'l'],
        JsonV::Bool(b) => if b {
            seq!['t', 'r', 'u', 'e']
        } else {
            seq!['f', 'a', 'l', 's', 'e']
        },
        JsonV::Num(n) => render_num(n),
        JsonV::Str(s) => seq!['"'] + escape_str(s) + seq!['"'],
        JsonV::Arr(a) => seq!['['] + render_elems(a) + seq![']'],
        JsonV::Obj(m) => seq!['{'] + render_members(m) + seq!['}'],
    }
}

pub open spec fn render_elems(a: Seq<JsonV>) -> Seq<char>
    decreases a,
{
    if a.len() == 0 {
        Seq::empty()
    } else if a.len() == 1 {
        render(a[0])
    } else {
        render(a[0]) + seq![','] + render_elems(a.drop_first())
    }
}

pub open spec fn render_members(m: Seq<(Seq<char>, JsonV)>) -> Seq<char>
    decreases m,
{
    if m.len() == 0 {
        Seq::empty()
    } else {
        let kv = seq!['"'] + escape_str(m[0].0) + seq!['"', ':'] + render(m[0].1);
        if m.len() == 1 {
            kv
        } else {
            kv + seq![','] + render_members(m.drop_first())
        }
    }
}

fn digit_char_x(d: u64) -> (c: char)
    requires
        d < 10,
    ensures
        c == digit_char(d as int),
{
    if d == 0 {
        '0'
    } else if d == 1 {
        '1'
    } else if d == 2 {
        '2'
    } else if d == 3 {
        '3'
    } else if d == 4 {
        '4'
    } else if d == 5 {
        '5'
    } else if d == 6 {
        '6'
    } else if d == 7 {
        '7'
    } else if d == 8 {
        '8'
    } else {
        '9'
    }
}

fn hex_char_x(d: u32) -> (c: char)
    requires
        d < 16,
    ensures
        c == hex_char(d as int),
{
    if d < 10 {
        digit_char_x(d as u64)
    } else if d == 10 {
        'a'
    } else if d == 11 {
        'b'
    } else if d == 12 {
        'c'
    } else if d == 13 {
        'd'
    } else if d == 14 {
        'e'
    } else {
        'f'
    }
}

fn digits_into(n: u64, out: &mut Vec<char>)
    ensures
        final(out)@ == old(out)@ + u64_digits(n),
    decreases n,
{
    if n < 10 {
        out.push(digit_char_x(n));
        assert(out@ =~= old(out)@ + u64_digits(n));
    } else {
        digits_into(n / 10, out);
        out.push(digit_char_x(n % 10));
        assert(out@ =~= old(out)@ + u64_digits(n));
    }
}

fn escape_char_into(c: char, out: &mut Vec<char>)
    ensures
        final(out)@ == old(out)@ + escape_char(c),
{
    if c == '"' {
        out.push('\\');
        out.push('"');
    } else if c == '\\' {
        out.push('\\');
        out.push('\\');
    } else {
        let u = c as u32;
        if u < 0x20 {
            out.push('\\');
            out.push('u');
            out.push('0');
            out.push('0');
            out.push(hex_char_x(u / 16));
            out.push(hex_char_x(u % 16));
        } else {
            out.push(c);
        }
    }
    assert(out@ =~= old(out)@ + escape_char(c));
}

fn escape_into(s: &Vec<char>, out: &mut Vec<char>)
    ensures
        final(out)@ == old(out)@ + escape_str(s@),
{
    let mut i: usize = 0;
    assert(s@.skip(0) =~= s@);
    while i < s.len()
        invariant
            i <= s.len(),
            out@ + escape_str(s@.skip(i as int)) == old(out)@ + escape_str(s@),
        decreases s.len() - i,
    {
        proof {
            assert(s@.skip(i as int)[0] == s@[i as int]);
            assert(s@.skip(i as int).drop_first() =~= s@.skip(i as int + 1));
        }
        escape_char_into(s[i], out);
        i = i + 1;
        assert(out@ + escape_str(s@.skip(i as int)) =~= old(out)@ + escape_str(s@));
    }
    assert(s@.skip(s@.len() as int) =~= Seq::<char>::empty());
    assert(out@ =~= out@ + escape_str(s@.skip(s@.len() as int)));
}

fn render_num_into(n: &JsonNum, out: &mut Vec<char>)
    ensures
        final(out)@ == old(out)@ + render_num(*n),
{
    if n.neg {
        out.push('-');
    }
    let mut ds: Vec<char> = Vec::new();
    digits_into(n.mantissa, &mut ds);
    let ghost ds0: Seq<char> = ds@;
    while ds.len() <= n.scale
        invariant
            pad_zeros(ds@, n.scale + 1) == pad_zeros(ds0, n.scale + 1),
            ds@.len() >= 1,
        decreases n.scale + 1 - ds.len(),
    {
        proof {
            assert(ds@.insert(0, '0') =~= seq!['0'] + ds@);
        }
        ds.insert(0, '0');
    }
    proof {
        assert(pad_zeros(ds@, n.scale + 1) == ds@);
        assert(ds@ == pad_zeros(u64_digits(n.mantissa), n.scale + 1));
    }
    if n.scale == 0 {
        let mut j: usize = 0;
        while j < ds.len()
            invariant
                j <= ds.len(),
                out@ == old(out)@ + (if n.neg { seq!['-'] } else { Seq::<char>::empty() })
                    + ds@.take(j as int),
                ds@ == pad_zeros(u64_digits(n.mantissa), n.scale as int + 1),
                n.scale == 0,
            decreases ds.len() - j,
        {
            proof {
                assert(ds@.take(j as int + 1) =~= ds@.take(j as int).push(ds@[j as int]));
            }
            out.push(ds[j]);
            j = j + 1;
        }
        proof {
            assert(ds@.take(ds@.len() as int) =~= ds@);
            assert(out@ =~= old(out)@ + render_num(*n));
        }
    } else {
        let k = ds.len() - n.scale;
        let mut j: usize = 0;
        while j < k
            invariant
                j <= k,
                k == ds.len() - n.scale,
                n.scale > 0,
                ds@ == pad_zeros(u64_digits(n.mantissa), n.scale as int + 1),
                out@ == old(out)@ + (if n.neg { seq!['-'] } else { Seq::<char>::empty() })
                    + ds@.take(j as int),
            decreases k - j,
        {
            proof {
                assert(ds@.take(j as int + 1) =~= ds@.take(j as int).push(ds@[j as int]));
            }
            out.push(ds[j]);
            j = j + 1;
        }
        out.push('.');
        while j < ds.len()
            invariant
                k <= j <= ds.len(),
                k == ds.len() - n.scale,
                n.scale > 0,
                ds@ == pad_zeros(u64_digits(n.mantissa), n.scale as int + 1),
                out@ == old(out)@ + (if n.neg { seq!['-'] } else { Seq::<char>::empty() })
                    + ds@.take(k as int) + seq!['.'] + ds@.subrange(k as int, j as int),
            decreases ds.len() - j,
        {
            proof {
                assert(ds@.subrange(k as int, j as int + 1)
                    =~= ds@.subrange(k as int, j as int).push(ds@[j as int]));
            }
            out.push(ds[j]);
            j = j + 1;
        }
        proof {
            assert(ds@.subrange(k as int, ds@.len() as int) =~= ds@.skip(ds@.len() - n.scale));
            assert(ds@.take(k as int) =~= ds@.take(ds@.len() - n.scale));
            assert(out@ =~= old(out)@ + render_num(*n));
        }
    }
}

/// Appends the canonical text of `*j` to `out`.
#[verifier::loop_isolation(false)]
#[verifier::rlimit(60)]
pub fn render_into(j: &Json, out: &mut Vec<char>)
    ensures
        final(out)@ == old(out)@ + render(j@),
    decreases *j,
{
    match j {
        Json::Null => {
            out.push('n');
            out.push('u');
            out.push('l');
            out.push('l');
            assert(out@ =~= old(out)@ + render(j@));
        },
        Json::Bool(b) => {
            if *b {
                out.push('t');
                out.push('r');
                out.push('u');
                out.push('e');
            } else {
                out.push('f');
                out.push('a');
                out.push('l');
                out.push('s');
                out.push('e');
            }
            assert(out@ =~= old(out)@ + render(j@));
        },
        Json::Num(n) => {
            render_num_into(n, out);
        },
        Json::Str(s) => {
            out.push('"');
            escape_into(s, out);
            out.push('"');
            assert(out@ =~= old(out)@ + render(j@));
        },
        Json::Arr(a) => {
            let ghost elems: Seq<JsonV> = jview_list(*a, 0);
            proof {
                lemma_jview_list_len(*a, 0);
            }
            out.push('[');
            let mut i: usize = 0;
            proof {
                assert(elems.skip(0) =~= elems);
                assert(out@ + render_elems(elems) + seq![']']
                    =~= old(out)@ + render(JsonV::Arr(elems)));
            }
            while i < a.len()
                invariant
                    i <= a.len(),
                    elems == jview_list(*a, 0),
                    elems.len() == a.len(),
                    out@ + render_elems(elems.skip(i as int)) + seq![']']
                        == old(out)@ + render(JsonV::Arr(elems)),
                decreases a.len() - i,
            {
                proof {
                    lemma_jview_list_index(*a, 0, i as int);
                    assert(elems.skip(i as int)[0] == elems[i as int]);
                    assert(elems.skip(i as int).drop_first() =~= elems.skip(i as int + 1));
                    assert(elems.skip(i as int).len() == elems.len() - i);
                    assert(*j == Json::Arr(*a));
                    assert(decreases_to!(*j => *a));
                    assert(decreases_to!(*a => a[i as int]));
                }
                render_into(&a[i], out);
                if i < a.len() - 1 {
                    out.push(',');
                }
                i = i + 1;
                assert(out@ + render_elems(elems.skip(i as int)) + seq![']']
                    =~= old(out)@ + render(JsonV::Arr(elems)));
            }
            proof {
                assert(elems.skip(elems.len() as int) =~= Seq::<JsonV>::empty());
            }
            out.push(']');
            assert(out@ =~= old(out)@ + render(j@));
        },
        Json::Obj(m) => {
            let ghost pairs: Seq<(Seq<char>, JsonV)> = jview_pairs(*m, 0);
            proof {
                lemma_jview_pairs_len(*m, 0);
            }
            out.push('{');
            let mut i: usize = 0;
            proof {
                assert(pairs.skip(0) =~= pairs);
                assert(out@ + render_members(pairs) + seq!['}']
                    =~= old(out)@ + render(JsonV::Obj(pairs)));
            }
            while i < m.len()
                invariant
                    i <= m.len(),
                    pairs == jview_pairs(*m, 0),
                    pairs.len() == m.len(),
                    out@ + render_members(pairs.skip(i as int)) + seq!['}']
                        == old(out)@ + render(JsonV::Obj(pairs)),
                decreases m.len() - i,
            {
                proof {
                    lemma_jview_pairs_index(*m, 0, i as int);
                    assert(pairs.skip(i as int)[0] == pairs[i as int]);
                    assert(pairs.skip(i as int).drop_first() =~= pairs.skip(i as int + 1));
                    assert(pairs.skip(i as int).len() == pairs.len() - i);
                    assert(*j == Json::Obj(*m));
                    assert(decreases_to!(*j => *m));
                    assert(decreases_to!(*m => m[i as int]));
                    assert(decreases_to!(m[i as int] => m[i as int].value));
                }
                out.push('"');
                escape_into(&m[i].key, out);
                out.push('"');
                out.push(':');
                render_into(&m[i].value, out);
                if i < m.len() - 1 {
                    out.push(',');
                }
                i = i + 1;
                assert(out@ + render_members(pairs.skip(i as int)) + seq!['}']
                    =~= old(out)@ + render(JsonV::Obj(pairs)));
            }
            proof {
                assert(pairs.skip(pairs.len() as int) =~= Seq::<(Seq<char>, JsonV)>::empty());
            }
            out.push('}');
            assert(out@ =~= old(out)@ + render(j@));
        },
    }
}

/// The canonical text of `*j`.
pub fn render_json(j: &Json) -> (out: Vec<char>)
    ensures
        out@ == render(j@),
{
    let mut out: Vec<char> = Vec::new();
    render_into(j, &mut out);
    out
}

// ---------------------------------------------------------------------------
// Parsing: from text back to a document. The spec parser works on the
// unconsumed suffix; each function returns the parsed piece and the rest.
// ---------------------------------------------------------------------------

pub open spec fn is_ws(c: char) -> bool {
    c == ' ' || c == '\n' || c == '\r' || c == '\t'
}

pub open spec fn is_digit(c: char) -> bool {
    48 <= c as u32 && c as u32 <= 57
}

pub open spec fn digit_val(c: char) -> int {
    c as u32 - 48
}

pub open spec fn hex_val(c: char) -> int {
    if is_digit(c) {
        c as u32 - 48
    } else if 97 <= c as u32 && c as u32 <= 102 {
        c as u32 - 87
    } else if 65 <= c as u32 && c as u32 <= 70 {
        c as u32 - 55
    } else {
        -1
    }
}

/// The short backslash escapes JSON allows, keyed by the character after the
/// backslash.
pub open spec fn esc_code(e: char) -> Option<char> {
    if e == '"' {
        Some('"')
    } else if e == '\\' {
        Some('\\')
    } else if e == '/' {
        Some('/')
    } else if e == 'b' {
        Some('\u{8}')
    } else if e == 'f' {
        Some('\u{c}')
    } else if e == 'n' {
        Some('\n')
    } else if e == 'r' {
        Some('\r')
    } else if e == 't' {
        Some('\t')
    } else {
        None
    }
}

pub open spec fn skip_ws(s: Seq<char>) -> Seq<char>
    decreases s.len(),
{
    if s.len() > 0 && is_ws(s[0]) {
        skip_ws(s.drop_first())
    } else {
        s
    }
}

pub proof fn lemma_skip_ws_len(s: Seq<char>)
    ensures
        skip_ws(s).len() <= s.len(),
    decreases s.len(),
{
    if s.len() > 0 && is_ws(s[0]) {
        lemma_skip_ws_len(s.drop_first());
    }
}

pub open spec fn str_prepend(c: char, r: Option<(Seq<char>, Seq<char>)>) -> Option<
    (Seq<char>, Seq<char>),
> {
    match r {
        Some(t) => Some((seq![c] + t.0, t.1)),
        None => None,
    }
}

/// Parses the body of a string literal, the opening quote already consumed,
/// up to and including the closing quote.
pub open spec fn sp_string(s: Seq<char>) -> Option<(Seq<char>, Seq<char>)>
    decreases s.len(),
{
    if s.len() == 0 {
        None
    } else if s[0] == '"' {
        Some((Seq::empty(), s.drop_first()))
    } else if s[0] == '\\' {
        if s.len() < 2 {
            None
        } else if s[1] == 'u' {
            if s.len() < 6 {
                None
            } else if hex_val(s[2]) < 0 || hex_val(s[3]) < 0 || hex_val(s[4]) < 0 || hex_val(s[5])
                < 0 {
                None
            } else {
                let code = hex_val(s[2]) * 4096 + hex_val(s[3]) * 256 + hex_val(s[4]) * 16
                    + hex_val(s[5]);
                if 0xD800 <= code && code < 0xE000 {
                    None
                } else {
                    str_prepend(((code as u32) as char), sp_string(s.skip(6)))
                }
            }
        } else {
            match esc_code(s[1]) {
                Some(c) => str_prepend(c, sp_string(s.skip(2))),
                None => None,
            }
        }
    } else if (s[0] as u32) < 0x20 {
        None
    } else {
        str_prepend(s[0], sp_string(s.drop_first()))
    }
}

/// The longest digit prefix of `s`, and what follows it.
pub open spec fn sp_digits(s: Seq<char>) -> (Seq<char>, Seq<char>)
    decreases s.len(),
{
    if s.len() > 0 && is_digit(s[0]) {
        let r = sp_digits(s.drop_first());
        (seq![s[0]] + r.0, r.1)
    } else {
        (Seq::empty(), s)
    }
}

pub open spec fn digits_val(ds: Seq<char>) -> int
    decreases ds.len(),
{
    if ds.len() == 0 {
        0
    } else {
        digits_val(ds.drop_last()) * 10 + digit_val(ds.last())
    }
}

pub open spec fn sp_number(s: Seq<char>) -> Option<(JsonNum, Seq<char>)> {
    let neg = s.len() > 0 && s[0] == '-';
    let s1 = if neg {
        s.drop_first()
    } else {
        s
    };
    let ir = sp_digits(s1);
    if ir.0.len() == 0 {
        None
    } else if ir.0[0] == '0' && ir.0.len() > 1 {
        None
    } else if ir.1.len() > 0 && ir.1[0] == '.' {
        let fr = sp_digits(ir.1.drop_first());
        if fr.0.len() == 0 {
            None
        } else if digits_val(ir.0 + fr.0) > u64::MAX || fr.0.len() > usize::MAX {
            None
        } else {
            Some(
                (
                    JsonNum {
                        neg,
                        mantissa: digits_val(ir.0 + fr.0) as u64,
                        scale: fr.0.len() as usize,
                    },
                    fr.1,
                ),
            )
        }
    } else if digits_val(ir.0) > u64::MAX {
        None
    } else {
        Some((JsonNum { neg, mantissa: digits_val(ir.0) as u64, scale: 0 }, ir.1))
    }
}

pub open spec fn sp_value(s: Seq<char>) -> Option<(JsonV, Seq<char>)>
    decreases s.len(), 2int,
{
    let t = skip_ws(s);
    if t.len() > s.len() {
        None
    } else if t.len() == 0 {
        None
    } else if t[0] == 'n' {
        if t.len() >= 4 && t[1] == 'u' && t[2] == 'l' && t[3] == 'l' {
            Some((JsonV::Null, t.skip(4)))
        } else {
            None
        }
    } else if t[0] == 't' {
        if t.len() >= 4 && t[1] == 'r' && t[2] == 'u' && t[3] == 'e' {
            Some((JsonV::Bool(true), t.skip(4)))
        } else {
            None
        }
    } else if t[0] == 'f' {
        if t.len() >= 5 && t[1] == 'a' && t[2] == 'l' && t[3] == 's' && t[4] == 'e' {
            Some((JsonV::Bool(false), t.skip(5)))
        } else {
            None
        }
    } else if t[0] == '"' {
        match sp_string(t.drop_first()) {
            Some(p) => Some((JsonV::Str(p.0), p.1)),
            None => None,
        }
    } else if t[0] == '[' {
        let u = skip_ws(t.drop_first());
        if u.len() > 0 && u[0] == ']' {
            Some((JsonV::Arr(Seq::empty()), u.drop_first()))
        } else if u.len() < s.len() {
            match sp_elems(u) {
                Some(p) => Some((JsonV::Arr(p.0), p.1)),
                None => None,
            }
        } else {
            None
        }
    } else if t[0] == '{' {
        let u = skip_ws(t.drop_first());
        if u.len() > 0 && u[0] == '}' {
            Some((JsonV::Obj(Seq::empty()), u.drop_first()))
        } else if u.len() < s.len() {
            match sp_members(u) {
                Some(p) => Some((JsonV::Obj(p.0), p.1)),
                None => None,
            }
        } else {
            None
        }
    } else if t[0] == '-' || is_digit(t[0]) {
        match sp_number(t) {
            Some(p) => Some((JsonV::Num(p.0), p.1)),
            None => None,
        }
    } else {
        None
    }
}

/// One or more comma-separated array elements, up to and including the
/// closing bracket.
pub open spec fn sp_elems(s: Seq<char>) -> Option<(Seq<JsonV>, Seq<char>)>
    decreases s.len(), 3int,
{
    match sp_value(s) {
        None => None,
        Some(p) => {
            let r1 = skip_ws(p.1);
            if r1.len() > 0 && r1[0] == ']' {
                Some((seq![p.0], r1.drop_first()))
            } else if r1.len() > 0 && r1[0] == ',' {
                let r2 = r1.drop_first();
                if r2.len() < s.len() {
                    match sp_elems(r2) {
                        Some(q) => Some((seq![p.0] + q.0, q.1)),
                        None => None,
                    }
                } else {
                    None
                }
            } else {
                None
            }
        },
    }
}

/// One or more `"key": value` members, up to and including the closing brace.
pub open spec fn sp_members(s: Seq<char>) -> Option<(Seq<(Seq<char>, JsonV)>, Seq<char>)>
    decreases s.len(), 3int,
{
    let t = skip_ws(s);
    if t.len() > s.len() {
        None
    } else if t.len() > 0 && t[0] == '"' {
        match sp_string(t.drop_first()) {
            None => None,
            Some(kp) => {
                let r1 = skip_ws(kp.1);
                if r1.len() > 0 && r1[0] == ':' {
                    let r2 = r1.drop_first();
                    if r2.len() <= s.len() {
                        match sp_value(r2) {
                            None => None,
                            Some(vp) => {
                                let r3 = skip_ws(vp.1);
                                if r3.len() > 0 && r3[0] == '}' {
                                    Some((seq![(kp.0, vp.0)], r3.drop_first()))
                                } else if r3.len() > 0 && r3[0] == ',' {
                                    let r4 = r3.drop_first();
                                    if r4.len() < s.len() {
                                        match sp_members(r4) {
                                            Some(q) => Some((seq![(kp.0, vp.0)] + q.0, q.1)),
                                            None => None,
                                        }
                                    } else {
                                        None
                                    }
                                } else {
                                    None
                                }
                            },
                        }
                    } else {
                        None
                    }
                } else {
                    None
                }
            },
        }
    } else {
        None
    }
}

/// The document a whole text holds: one value, with whitespace allowed
/// around it and nothing else.
pub open spec fn json_parse(s: Seq<char>) -> Option<JsonV> {
    match sp_value(s) {
        Some(p) => if skip_ws(p.1).len() == 0 {
            Some(p.0)
        } else {
            None
        },
        None => None,
    }
}

// ---------------------------------------------------------------------------
// The executable parser. Each function is proved to return exactly what the
// spec parser says about the suffix of the input that starts at its index.
// ---------------------------------------------------------------------------

/// Relies on str::chars, collected: the characters of the text, in order.
#[verifier::external_body]
pub fn str_to_chars(s: &str) -> (v: Vec<char>)
    ensures
        v@ == s@,
{
    s.chars().collect()
}

/// Relies on String's FromIterator over char: the text holding exactly these
/// characters.
#[verifier::external_body]
pub fn chars_to_string(v: &Vec<char>) -> (s: String)
    ensures
        s@ == v@,
{
    v.iter().collect()
}

/// Relies on char::from_u32: for a code outside the surrogate range and below
/// 0x110000 it yields the scalar with exactly that code.
#[verifier::external_body]
fn char_from_u32(c: u32) -> (r: char)
    requires
        c < 0xD800 || (0xE000 <= c && c < 0x110000),
    ensures
        r as u32 == c,
{
    char::from_u32(c).unwrap()
}

fn is_digit_x(c: char) -> (b: bool)
    ensures
        b == is_digit(c),
{
    let u = c as u32;
    48 <= u && u <= 57
}

fn is_ws_x(c: char) -> (b: bool)
    ensures
        b == is_ws(c),
{
    c == ' ' || c == '\n' || c == '\r' || c == '\t'
}

fn hex_val_x(c: char) -> (v: i32)
    ensures
        v as int == hex_val(c),
{
    let u = c as u32;
    if 48 <= u && u <= 57 {
        (u - 48) as i32
    } else if 97 <= u && u <= 102 {
        (u - 87) as i32
    } else if 65 <= u && u <= 70 {
        (u - 55) as i32
    } else {
        -1
    }
}

fn esc_code_x(e: char) -> (r: Option<char>)
    ensures
        r == esc_code(e),
{
    if e == '"' {
        Some('"')
    } else if e == '\\' {
        Some('\\')
    } else if e == '/' {
        Some('/')
    } else if e == 'b' {
        Some('\u{8}')
    } else if e == 'f' {
        Some('\u{c}')
    } else if e == 'n' {
        Some('\n')
    } else if e == 'r' {
        Some('\r')
    } else if e == 't' {
        Some('\t')
    } else {
        None
    }
}

#[verifier::loop_isolation(false)]
fn x_skip_ws(s: &Vec<char>, i: usize) -> (j: usize)
    requires
        i <= s@.len(),
    ensures
        i <= j <= s@.len(),
        skip_ws(s@.skip(i as int)) == s@.skip(j as int),
{
    let mut k: usize = i;
    while k < s.len() && is_ws_x(s[k])
        invariant
            i <= k <= s@.len(),
            skip_ws(s@.skip(i as int)) == skip_ws(s@.skip(k as int)),
        decreases s@.len() - k,
    {
        proof {
            assert(s@.skip(k as int)[0] == s@[k as int]);
            assert(s@.skip(k as int).drop_first() =~= s@.skip(k as int + 1));
        }
        k = k + 1;
    }
    proof {
        if k < s@.len() {
            assert(s@.skip(k as int)[0] == s@[k as int]);
        }
        assert(skip_ws(s@.skip(k as int)) == s@.skip(k as int));
    }
    k
}

spec fn str_capture(pre: Seq<char>, r: Option<(Seq<char>, Seq<char>)>) -> Option<
    (Seq<char>, Seq<char>),
> {
    match r {
        Some(t) => Some((pre + t.0, t.1)),
        None => None,
    }
}

proof fn lemma_capture_empty(r: Option<(Seq<char>, Seq<char>)>)
    ensures
        str_capture(Seq::empty(), r) == r,
{
    match r {
        Some(t) => {
            assert(Seq::empty() + t.0 =~= t.0);
        },
        None => {},
    }
}

proof fn lemma_capture_assoc(pre: Seq<char>, c: char, r: Option<(Seq<char>, Seq<char>)>)
    ensures
        str_capture(pre.push(c), r) == str_capture(pre, str_prepend(c, r)),
{
    match r {
        Some(t) => {
            assert(pre.push(c) + t.0 =~= pre + (seq![c] + t.0));
        },
        None => {},
    }
}

#[verifier::loop_isolation(false)]
#[verifier::rlimit(60)]
fn x_string(s: &Vec<char>, i: usize) -> (r: Option<(Vec<char>, usize)>)
    requires
        i <= s@.len(),
    ensures
        (match r {
            Some(p) => i <= p.1 <= s@.len() && sp_string(s@.skip(i as int)) == Some(
                (p.0@, s@.skip(p.1 as int)),
            ),
            None => sp_string(s@.skip(i as int)) is None,
        }),
{
    let mut acc: Vec<char> = Vec::new();
    let mut k: usize = i;
    proof {
        lemma_capture_empty(sp_string(s@.skip(i as int)));
    }
    loop
        invariant
            i <= k <= s@.len(),
            sp_string(s@.skip(i as int)) == str_capture(acc@, sp_string(s@.skip(k as int))),
        decreases s@.len() - k,
    {
        if k == s.len() {
            proof {
                assert(s@.skip(k as int) =~= Seq::<char>::empty());
            }
            return None;
        }
        let ghost sk: Seq<char> = s@.skip(k as int);
        proof {
            assert(sk[0] == s@[k as int]);
        }
        let c = s[k];
        if c == '"' {
            proof {
                assert(sk.drop_first() =~= s@.skip(k as int + 1));
                assert(acc@ + Seq::<char>::empty() =~= acc@);
            }
            return Some((acc, k + 1));
        } else if c == '\\' {
            if k + 1 == s.len() {
                return None;
            }
            let e = s[k + 1];
            proof {
                assert(sk[1] == s@[k as int + 1]);
            }
            if e == 'u' {
                if s.len() - k < 6 {
                    return None;
                }
                proof {
                    assert(sk[2] == s@[k as int + 2]);
                    assert(sk[3] == s@[k as int + 3]);
                    assert(sk[4] == s@[k as int + 4]);
                    assert(sk[5] == s@[k as int + 5]);
                }
                let v2 = hex_val_x(s[k + 2]);
                let v3 = hex_val_x(s[k + 3]);
                let v4 = hex_val_x(s[k + 4]);
                let v5 = hex_val_x(s[k + 5]);
                if v2 < 0 || v3 < 0 || v4 < 0 || v5 < 0 {
                    return None;
                }
                let code: u32 = (v2 as u32) * 4096 + (v3 as u32) * 256 + (v4 as u32) * 16 + (
                v5 as u32);
                if 0xD800 <= code && code < 0xE000 {
                    return None;
                }
                let ch = char_from_u32(code);
                proof {
                    assert(sk.skip(6) =~= s@.skip(k as int + 6));
                    lemma_capture_assoc(acc@, ch, sp_string(s@.skip(k as int + 6)));
                }
                acc.push(ch);
                k = k + 6;
            } else {
                match esc_code_x(e) {
                    None => {
                        return None;
                    },
                    Some(c2) => {
                        proof {
                            assert(sk.skip(2) =~= s@.skip(k as int + 2));
                            lemma_capture_assoc(acc@, c2, sp_string(s@.skip(k as int + 2)));
                        }
                        acc.push(c2);
                        k = k + 2;
                    },
                }
            }
        } else if (c as u32) < 0x20 {
            return None;
        } else {
            proof {
                assert(sk.drop_first() =~= s@.skip(k as int + 1));
                lemma_capture_assoc(acc@, c, sp_string(s@.skip(k as int + 1)));
            }
            acc.push(c);
            k = k + 1;
        }
    }
}

proof fn lemma_sp_digits_range(s: Seq<char>, k: int, j: int)
    requires
        0 <= k <= j <= s.len(),
        forall|t: int| k <= t < j ==> is_digit(s[t]),
        j == s.len() || !is_digit(s[j]),
    ensures
        sp_digits(s.skip(k)) == (s.subrange(k, j), s.skip(j)),
    decreases j - k,
{
    if k < j {
        lemma_sp_digits_range(s, k + 1, j);
        assert(s.skip(k)[0] == s[k]);
        assert(s.skip(k).drop_first() =~= s.skip(k + 1));
        assert(seq![s[k]] + s.subrange(k + 1, j) =~= s.subrange(k, j));
    } else {
        if k < s.len() {
            assert(s.skip(k)[0] == s[k]);
        }
        assert(s.subrange(k, j) =~= Seq::<char>::empty());
    }
}

proof fn lemma_digits_val_nonneg(ds: Seq<char>)
    requires
        forall|t: int| 0 <= t < ds.len() ==> is_digit(ds[t]),
    ensures
        digits_val(ds) >= 0,
    decreases ds.len(),
{
    if ds.len() > 0 {
        lemma_digits_val_nonneg(ds.drop_last());
    }
}

proof fn lemma_digits_val_prefix(ds: Seq<char>, m: int)
    requires
        forall|t: int| 0 <= t < ds.len() ==> is_digit(ds[t]),
        0 <= m <= ds.len(),
    ensures
        digits_val(ds.take(m)) <= digits_val(ds),
    decreases ds.len(),
{
    lemma_digits_val_nonneg(ds);
    if m < ds.len() {
        assert(ds.drop_last().take(m) =~= ds.take(m));
        lemma_digits_val_nonneg(ds.drop_last());
        lemma_digits_val_prefix(ds.drop_last(), m);
    } else {
        assert(ds.take(m) =~= ds);
    }
}

#[verifier::loop_isolation(false)]
fn x_digits_end(s: &Vec<char>, i: usize) -> (j: usize)
    requires
        i <= s@.len(),
    ensures
        i <= j <= s@.len(),
        forall|t: int| i <= t < j ==> is_digit(s@[t]),
        j == s@.len() || !is_digit(s@[j as int]),
{
    let mut k: usize = i;
    while k < s.len() && is_digit_x(s[k])
        invariant
            i <= k <= s@.len(),
            forall|t: int| i <= t < k ==> is_digit(s@[t]),
        decreases s@.len() - k,
    {
        k = k + 1;
    }
    k
}

#[verifier::loop_isolation(false)]
fn x_digits_val(s: &Vec<char>, i: usize, j: usize) -> (r: Option<u64>)
    requires
        i <= j <= s@.len(),
        forall|t: int| i <= t < j ==> is_digit(s@[t]),
    ensures
        (match r {
            Some(v) => v as int == digits_val(s@.subrange(i as int, j as int)),
            None => digits_val(s@.subrange(i as int, j as int)) > u64::MAX,
        }),
{
    let ghost ds: Seq<char> = s@.subrange(i as int, j as int);
    let mut v: u64 = 0;
    let mut t: usize = i;
    proof {
        assert(ds.take(0) =~= Seq::<char>::empty());
    }
    while t < j
        invariant
            i <= t <= j,
            v as int == digits_val(ds.take(t - i)),
        decreases j - t,
    {
        let d = (s[t] as u32 - 48) as u64;
        proof {
            assert(ds[t - i] == s@[t as int]);
            assert(ds.take(t - i + 1).drop_last() =~= ds.take(t - i));
            assert(ds.take(t - i + 1).last() == ds[t - i]);
        }
        if v > (u64::MAX - d) / 10 {
            proof {
                assert(digits_val(ds.take(t - i + 1)) > u64::MAX);
                lemma_digits_val_prefix(ds, t - i + 1);
            }
            return None;
        }
        v = v * 10 + d;
        t = t + 1;
    }
    proof {
        assert(ds.take(j - i) =~= ds);
    }
    Some(v)
}

fn copy_range(s: &Vec<char>, from: usize, to: usize, out: &mut Vec<char>)
    requires
        from <= to <= s@.len(),
    ensures
        final(out)@ == old(out)@ + s@.subrange(from as int, to as int),
{
    let mut t: usize = from;
    proof {
        assert(old(out)@ + s@.subrange(from as int, from as int) =~= old(out)@);
    }
    while t < to
        invariant
            from <= t <= to <= s@.len(),
            out@ == old(out)@ + s@.subrange(from as int, t as int),
        decreases to - t,
    {
        proof {
            assert(s@.subrange(from as int, t as int + 1) =~= s@.subrange(
                from as int,
                t as int,
            ).push(s@[t as int]));
        }
        out.push(s[t]);
        t = t + 1;
    }
}

#[verifier::loop_isolation(false)]
#[verifier::spinoff_prover]
#[verifier::rlimit(100)]
fn x_number(s: &Vec<char>, i: usize) -> (r: Option<(JsonNum, usize)>)
    requires
        i <= s@.len(),
    ensures
        (match r {
            Some(p) => i <= p.1 <= s@.len() && sp_number(s@.skip(i as int)) == Some(
                (p.0, s@.skip(p.1 as int)),
            ),
            None => sp_number(s@.skip(i as int)) is None,
        }),
{
    let ghost s0: Seq<char> = s@.skip(i as int);
    let neg = if i < s.len() {
        s[i] == '-'
    } else {
        false
    };
    proof {
        if i < s@.len() {
            assert(s0[0] == s@[i as int]);
        }
    }
    let i1 = if neg {
        i + 1
    } else {
        i
    };
    proof {
        if neg {
            assert(s0.drop_first() =~= s@.skip(i1 as int));
        } else {
            assert(s0 =~= s@.skip(i1 as int));
        }
    }
    let j = x_digits_end(s, i1);
    proof {
        lemma_sp_digits_range(s@, i1 as int, j as int);
    }
    if j == i1 {
        proof {
            assert(s@.subrange(i1 as int, j as int) =~= Seq::<char>::empty());
        }
        return None;
    }
    proof {
        assert(s@.subrange(i1 as int, j as int)[0] == s@[i1 as int]);
    }
    if s[i1] == '0' && j - i1 > 1 {
        return None;
    }
    let has_frac = j < s.len() && s[j] == '.';
    proof {
        if j < s@.len() {
            assert(s@.skip(j as int)[0] == s@[j as int]);
        }
    }
    if has_frac {
        proof {
            assert(s@.skip(j as int).drop_first() =~= s@.skip(j as int + 1));
        }
        let f_end = x_digits_end(s, j + 1);
        proof {
            lemma_sp_digits_range(s@, j as int + 1, f_end as int);
        }
        if f_end == j + 1 {
            proof {
                assert(s@.subrange(j as int + 1, f_end as int) =~= Seq::<char>::empty());
            }
            return None;
        }
        let mut md: Vec<char> = Vec::new();
        copy_range(s, i1, j, &mut md);
        copy_range(s, j + 1, f_end, &mut md);
        proof {
            assert(md@ == Seq::<char>::empty() + s@.subrange(i1 as int, j as int) + s@.subrange(
                j as int + 1,
                f_end as int,
            ));
            assert(md@ =~= s@.subrange(i1 as int, j as int) + s@.subrange(
                j as int + 1,
                f_end as int,
            ));
            assert(md@.subrange(0, md@.len() as int) =~= md@);
        }
        match x_digits_val(&md, 0, md.len()) {
            None => {
                return None;
            },
            Some(v) => {
                let scale = f_end - (j + 1);
                return Some((JsonNum { neg, mantissa: v, scale }, f_end));
            },
        }
    } else {
        proof {
            assert(s@.subrange(i1 as int, j as int).subrange(
                0,
                s@.subrange(i1 as int, j as int).len() as int,
            ) =~= s@.subrange(i1 as int, j as int));
        }
        match x_digits_val(s, i1, j) {
            None => {
                return None;
            },
            Some(v) => {
                return Some((JsonNum { neg, mantissa: v, scale: 0 }, j));
            },
        }
    }
}

proof fn lemma_jview_list_shift(a: Vec<Json>, b: Vec<Json>, x: Json, i: int)
    requires
        b@ == seq![x] + a@,
        0 <= i <= a.len(),
    ensures
        jview_list(b, i + 1) == jview_list(a, i),
    decreases a.len() - i,
{
    if i < a.len() {
        lemma_jview_list_shift(a, b, x, i + 1);
        assert(b[i + 1] == a[i]);
    }
}

proof fn lemma_jview_list_cons(a: Vec<Json>, b: Vec<Json>, x: Json)
    requires
        b@ == seq![x] + a@,
    ensures
        jview_list(b, 0) == seq![jview(x)] + jview_list(a, 0),
    decreases a.len(),
{
    lemma_jview_list_shift(a, b, x, 0);
    assert(b[0] == x);
    assert(jview_list(b, 0) =~= seq![jview(x)] + jview_list(a, 0));
}

proof fn lemma_jview_pairs_shift(a: Vec<JsonMember>, b: Vec<JsonMember>, x: JsonMember, i: int)
    requires
        b@ == seq![x] + a@,
        0 <= i <= a.len(),
    ensures
        jview_pairs(b, i + 1) == jview_pairs(a, i),
    decreases a.len() - i,
{
    if i < a.len() {
        lemma_jview_pairs_shift(a, b, x, i + 1);
        assert(b[i + 1] == a[i]);
    }
}

proof fn lemma_jview_pairs_cons(a: Vec<JsonMember>, b: Vec<JsonMember>, x: JsonMember)
    requires
        b@ == seq![x] + a@,
    ensures
        jview_pairs(b, 0) == seq![(x.key@, jview(x.value))] + jview_pairs(a, 0),
    decreases a.len(),
{
    lemma_jview_pairs_shift(a, b, x, 0);
    assert(b[0] == x);
    assert(jview_pairs(b, 0) =~= seq![(x.key@, jview(x.value))] + jview_pairs(a, 0));
}

#[verifier::spinoff_prover]
#[verifier::rlimit(100)]
fn x_value(s: &Vec<char>, i: usize) -> (r: Option<(Json, usize)>)
    requires
        i <= s@.len(),
    ensures
        (match r {
            Some(p) => i <= p.1 <= s@.len() && sp_value(s@.skip(i as int)) == Some(
                (p.0@, s@.skip(p.1 as int)),
            ),
            None => sp_value(s@.skip(i as int)) is None,
        }),
    decreases s@.len() - i, 2int,
{
    let ghost s0: Seq<char> = s@.skip(i as int);
    let j0 = x_skip_ws(s, i);
    let ghost t: Seq<char> = s@.skip(j0 as int);
    if j0 == s.len() {
        proof {
            assert(t =~= Seq::<char>::empty());
        }
        return None;
    }
    let c = s[j0];
    proof {
        assert(t[0] == s@[j0 as int]);
    }
    if c == 'n' {
        proof {
            if s@.len() - j0 >= 4 {
                assert(t[1] == s@[j0 as int + 1]);
                assert(t[2] == s@[j0 as int + 2]);
                assert(t[3] == s@[j0 as int + 3]);
                assert(t.skip(4) =~= s@.skip(j0 as int + 4));
            }
        }
        if s.len() - j0 >= 4 && s[j0 + 1] == 'u' && s[j0 + 2] == 'l' && s[j0 + 3] == 'l' {
            return Some((Json::Null, j0 + 4));
        } else {
            return None;
        }
    } else if c == 't' {
        proof {
            if s@.len() - j0 >= 4 {
                assert(t[1] == s@[j0 as int + 1]);
                assert(t[2] == s@[j0 as int + 2]);
                assert(t[3] == s@[j0 as int + 3]);
                assert(t.skip(4) =~= s@.skip(j0 as int + 4));
            }
        }
        if s.len() - j0 >= 4 && s[j0 + 1] == 'r' && s[j0 + 2] == 'u' && s[j0 + 3] == 'e' {
            return Some((Json::Bool(true), j0 + 4));
        } else {
            return None;
        }
    } else if c == 'f' {
        proof {
            if s@.len() - j0 >= 5 {
                assert(t[1] == s@[j0 as int + 1]);
                assert(t[2] == s@[j0 as int + 2]);
                assert(t[3] == s@[j0 as int + 3]);
                assert(t[4] == s@[j0 as int + 4]);
                assert(t.skip(5) =~= s@.skip(j0 as int + 5));
            }
        }
        if s.len() - j0 >= 5 && s[j0 + 1] == 'a' && s[j0 + 2] == 'l' && s[j0 + 3] == 's' && s[j0
            + 4] == 'e' {
            return Some((Json::Bool(false), j0 + 5));
        } else {
            return None;
        }
    } else if c == '"' {
        proof {
            assert(t.drop_first() =~= s@.skip(j0 as int + 1));
        }
        match x_string(s, j0 + 1) {
            Some((cs, k)) => {
                return Some((Json::Str(cs), k));
            },
            None => {
                return None;
            },
        }
    } else if c == '[' {
        proof {
            assert(t.drop_first() =~= s@.skip(j0 as int + 1));
        }
        let j1 = x_skip_ws(s, j0 + 1);
        let ghost u: Seq<char> = s@.skip(j1 as int);
        if j1 < s.len() && s[j1] == ']' {
            let empty: Vec<Json> = Vec::new();
            proof {
                assert(u[0] == s@[j1 as int]);
                assert(u.drop_first() =~= s@.skip(j1 as int + 1));
                assert(jview_list(empty, 0) =~= Seq::<JsonV>::empty());
                assert(jview(Json::Arr(empty)) == JsonV::Arr(Seq::empty()));
            }
            return Some((Json::Arr(empty), j1 + 1));
        } else {
            proof {
                if j1 < s@.len() {
                    assert(u[0] == s@[j1 as int]);
                }
                assert(u.len() < s0.len());
            }
            match x_elems(s, j1) {
                Some((items, k)) => {
                    return Some((Json::Arr(items), k));
                },
                None => {
                    return None;
                },
            }
        }
    } else if c == '{' {
        proof {
            assert(t.drop_first() =~= s@.skip(j0 as int + 1));
        }
        let j1 = x_skip_ws(s, j0 + 1);
        let ghost u: Seq<char> = s@.skip(j1 as int);
        if j1 < s.len() && s[j1] == '}' {
            let empty: Vec<JsonMember> = Vec::new();
            proof {
                assert(u[0] == s@[j1 as int]);
                assert(u.drop_first() =~= s@.skip(j1 as int + 1));
                assert(jview_pairs(empty, 0) =~= Seq::<(Seq<char>, JsonV)>::empty());
                assert(jview(Json::Obj(empty)) == JsonV::Obj(Seq::empty()));
            }
            return Some((Json::Obj(empty), j1 + 1));
        } else {
            proof {
                if j1 < s@.len() {
                    assert(u[0] == s@[j1 as int]);
                }
                assert(u.len() < s0.len());
            }
            match x_members(s, j1) {
                Some((mems, k)) => {
                    return Some((Json::Obj(mems), k));
                },
                None => {
                    return None;
                },
            }
        }
    } else {
        let cu = c as u32;
        if c == '-' || (48 <= cu && cu <= 57) {
            match x_number(s, j0) {
                Some((n, k)) => {
                    return Some((Json::Num(n), k));
                },
                None => {
                    return None;
                },
            }
        } else {
            return None;
        }
    }
}

#[verifier::spinoff_prover]
#[verifier::rlimit(100)]
fn x_elems(s: &Vec<char>, i: usize) -> (r: Option<(Vec<Json>, usize)>)
    requires
        i <= s@.len(),
    ensures
        (match r {
            Some(p) => i <= p.1 <= s@.len() && sp_elems(s@.skip(i as int)) == Some(
                (jview_list(p.0, 0), s@.skip(p.1 as int)),
            ),
            None => sp_elems(s@.skip(i as int)) is None,
        }),
    decreases s@.len() - i, 3int,
{
    let ghost s0: Seq<char> = s@.skip(i as int);
    match x_value(s, i) {
        None => {
            return None;
        },
        Some((v, k)) => {
            let r1 = x_skip_ws(s, k);
            let ghost u: Seq<char> = s@.skip(r1 as int);
            proof {
                if r1 < s@.len() {
                    assert(u[0] == s@[r1 as int]);
                }
            }
            if r1 < s.len() && s[r1] == ']' {
                let mut out: Vec<Json> = Vec::new();
                out.push(v);
                proof {
                    assert(out@ == Seq::<Json>::empty().push(v));
                    assert(out[0] == v);
                    assert(jview_list(out, 1) =~= Seq::<JsonV>::empty());
                    assert(jview_list(out, 0) =~= seq![jview(v)]);
                    assert(u.drop_first() =~= s@.skip(r1 as int + 1));
                }
                return Some((out, r1 + 1));
            } else if r1 < s.len() && s[r1] == ',' {
                proof {
                    assert(u.drop_first() =~= s@.skip(r1 as int + 1));
                    assert(s@.skip(r1 as int + 1).len() < s0.len());
                }
                match x_elems(s, r1 + 1) {
                    None => {
                        return None;
                    },
                    Some((rest_v, k2)) => {
                        let ghost old_rest: Vec<Json> = rest_v;
                        let mut out = rest_v;
                        out.insert(0, v);
                        proof {
                            assert(out@ =~= seq![v] + old_rest@);
                            lemma_jview_list_cons(old_rest, out, v);
                        }
                        return Some((out, k2));
                    },
                }
            } else {
                return None;
            }
        },
    }
}

#[verifier::spinoff_prover]
#[verifier::rlimit(100)]
fn x_members(s: &Vec<char>, i: usize) -> (r: Option<(Vec<JsonMember>, usize)>)
    requires
        i <= s@.len(),
    ensures
        (match r {
            Some(p) => i <= p.1 <= s@.len() && sp_members(s@.skip(i as int)) == Some(
                (jview_pairs(p.0, 0), s@.skip(p.1 as int)),
            ),
            None => sp_members(s@.skip(i as int)) is None,
        }),
    decreases s@.len() - i, 3int,
{
    let ghost s0: Seq<char> = s@.skip(i as int);
    let j0 = x_skip_ws(s, i);
    let ghost t: Seq<char> = s@.skip(j0 as int);
    if j0 == s.len() {
        proof {
            assert(t =~= Seq::<char>::empty());
        }
        return None;
    }
    proof {
        assert(t[0] == s@[j0 as int]);
    }
    if s[j0] != '"' {
        return None;
    }
    proof {
        assert(t.drop_first() =~= s@.skip(j0 as int + 1));
    }
    match x_string(s, j0 + 1) {
        None => {
            return None;
        },
        Some((key, k1)) => {
            let r1 = x_skip_ws(s, k1);
            let ghost u1: Seq<char> = s@.skip(r1 as int);
            proof {
                if r1 < s@.len() {
                    assert(u1[0] == s@[r1 as int]);
                }
            }
            if !(r1 < s.len() && s[r1] == ':') {
                return None;
            }
            proof {
                assert(u1.drop_first() =~= s@.skip(r1 as int + 1));
                assert(s@.skip(r1 as int + 1).len() <= s0.len());
            }
            match x_value(s, r1 + 1) {
                None => {
                    return None;
                },
                Some((v, k2)) => {
                    let r3 = x_skip_ws(s, k2);
                    let ghost u3: Seq<char> = s@.skip(r3 as int);
                    proof {
                        if r3 < s@.len() {
                            assert(u3[0] == s@[r3 as int]);
                        }
                    }
                    if r3 < s.len() && s[r3] == '}' {
                        let mut out: Vec<JsonMember> = Vec::new();
                        out.push(JsonMember { key, value: v });
                        proof {
                            assert(jview_pairs(out, 1) =~= Seq::<(Seq<char>, JsonV)>::empty());
                            assert(jview_pairs(out, 0) =~= seq![(out[0].key@, jview(out[0].value))]);
                            assert(u3.drop_first() =~= s@.skip(r3 as int + 1));
                        }
                        return Some((out, r3 + 1));
                    } else if r3 < s.len() && s[r3] == ',' {
                        proof {
                            assert(u3.drop_first() =~= s@.skip(r3 as int + 1));
                            assert(s@.skip(r3 as int + 1).len() < s0.len());
                        }
                        match x_members(s, r3 + 1) {
                            None => {
                                return None;
                            },
                            Some((rest_m, k3)) => {
                                let ghost old_rest: Vec<JsonMember> = rest_m;
                                let mut out = rest_m;
                                let m = JsonMember { key, value: v };
                                let ghost mg: JsonMember = m;
                                out.insert(0, m);
                                proof {
                                    assert(out@ =~= seq![mg] + old_rest@);
                                    lemma_jview_pairs_cons(old_rest, out, mg);
                                }
                                return Some((out, k3));
                            },
                        }
                    } else {
                        return None;
                    }
                },
            }
        },
    }
}

// ---------------------------------------------------------------------------
// The round trip: the canonical text of any document parses back to exactly
// that document.
// ---------------------------------------------------------------------------

/// Text that cannot extend a number standing just before it.
pub open spec fn num_boundary(rest: Seq<char>) -> bool {
    rest.len() == 0 || (!is_digit(rest[0]) && rest[0] != '.')
}

proof fn lemma_control_cast(c: char)
    requires
        (c as u32) < 0x20,
    ensures
        ((c as u32) as char) == c,
{
}

proof fn lemma_digit_char_val(d: int)
    requires
        0 <= d < 10,
    ensures
        is_digit(digit_char(d)),
        digit_val(digit_char(d)) == d,
        digit_char(d) != '0' <==> d != 0,
{
}

proof fn lemma_hex_char_val(d: int)
    requires
        0 <= d < 16,
    ensures
        hex_val(hex_char(d)) == d,
{
}

proof fn lemma_u64_digits_facts(m: u64)
    ensures
        u64_digits(m).len() >= 1,
        forall|i: int| 0 <= i < u64_digits(m).len() ==> is_digit(#[trigger] u64_digits(m)[i]),
        u64_digits(m)[0] == '0' <==> m == 0,
        digits_val(u64_digits(m)) == m,
    decreases m,
{
    if m < 10 {
        lemma_digit_char_val(m as int);
        assert(digits_val(Seq::<char>::empty()) == 0);
        assert(u64_digits(m).drop_last() =~= Seq::<char>::empty());
        assert(u64_digits(m).last() == digit_char(m as int));
    } else {
        lemma_u64_digits_facts(m / 10);
        lemma_digit_char_val((m % 10) as int);
        let ds = u64_digits(m);
        assert(ds.drop_last() =~= u64_digits(m / 10));
        assert(ds.last() == digit_char((m % 10) as int));
        assert(ds[0] == u64_digits(m / 10)[0]);
        assert(forall|i: int| 0 <= i < ds.len() - 1 ==> #[trigger] ds[i] == u64_digits(m / 10)[i]);
    }
}

proof fn lemma_digits_val_zero_front(ds: Seq<char>)
    ensures
        digits_val(seq!['0'] + ds) == digits_val(ds),
    decreases ds.len(),
{
    if ds.len() == 0 {
        assert((seq!['0'] + ds) =~= seq!['0']);
        assert(seq!['0'].drop_last() =~= Seq::<char>::empty());
        assert(digits_val(Seq::<char>::empty()) == 0);
        assert(digit_val('0') == 0);
    } else {
        assert((seq!['0'] + ds).drop_last() =~= seq!['0'] + ds.drop_last());
        assert((seq!['0'] + ds).last() == ds.last());
        lemma_digits_val_zero_front(ds.drop_last());
    }
}

proof fn lemma_pad_facts(ds: Seq<char>, n: int)
    requires
        ds.len() >= 1,
        forall|i: int| 0 <= i < ds.len() ==> is_digit(#[trigger] ds[i]),
    ensures
        pad_zeros(ds, n).len() >= ds.len(),
        pad_zeros(ds, n).len() >= n,
        ds.len() >= n ==> pad_zeros(ds, n) == ds,
        ds.len() < n ==> pad_zeros(ds, n).len() == n && pad_zeros(ds, n)[0] == '0',
        forall|i: int|
            0 <= i < pad_zeros(ds, n).len() ==> is_digit(#[trigger] pad_zeros(ds, n)[i]),
        digits_val(pad_zeros(ds, n)) == digits_val(ds),
    decreases n - ds.len(),
{
    if ds.len() < n {
        assert(is_digit('0'));
        lemma_pad_facts(seq!['0'] + ds, n);
        lemma_digits_val_zero_front(ds);
        assert((seq!['0'] + ds)[0] == '0');
        if (seq!['0'] + ds).len() >= n {
            assert(pad_zeros(ds, n) == seq!['0'] + ds);
        } else {
            assert(pad_zeros(seq!['0'] + ds, n)[0] == '0');
        }
    }
}

proof fn lemma_sp_digits_concat(ds: Seq<char>, rest: Seq<char>)
    requires
        forall|i: int| 0 <= i < ds.len() ==> is_digit(#[trigger] ds[i]),
        rest.len() == 0 || !is_digit(rest[0]),
    ensures
        sp_digits(ds + rest) == (ds, rest),
    decreases ds.len(),
{
    if ds.len() == 0 {
        assert(ds + rest =~= rest);
        assert(sp_digits(rest) == (Seq::<char>::empty(), rest));
        assert(ds =~= Seq::<char>::empty());
    } else {
        assert((ds + rest)[0] == ds[0]);
        assert((ds + rest).len() > 0);
        assert((ds + rest).drop_first() =~= ds.drop_first() + rest);
        lemma_sp_digits_concat(ds.drop_first(), rest);
        assert(seq![ds[0]] + ds.drop_first() =~= ds);
    }
}

/// Numbers: the canonical text of a number parses back to exactly it, with
/// any following text that cannot extend a number left alone.
#[verifier::spinoff_prover]
#[verifier::rlimit(100)]
proof fn lemma_num_round_trip(n: JsonNum, rest: Seq<char>)
    requires
        num_boundary(rest),
    ensures
        sp_number(render_num(n) + rest) == Some((n, rest)),
{
    lemma_u64_digits_facts(n.mantissa);
    let ds0 = u64_digits(n.mantissa);
    lemma_pad_facts(ds0, n.scale + 1);
    let ds = pad_zeros(ds0, n.scale + 1);
    let body = if n.scale == 0 {
        ds
    } else {
        ds.take(ds.len() - n.scale) + seq!['.'] + ds.skip(ds.len() - n.scale)
    };
    let s = render_num(n) + rest;
    let s1 = body + rest;
    if n.neg {
        assert(render_num(n) == seq!['-'] + body);
        assert(s[0] == '-');
        assert(s.drop_first() =~= s1);
    } else {
        assert(render_num(n) == body);
        assert(s =~= s1);
        if n.scale == 0 {
            assert(s[0] == ds[0]);
        } else {
            assert(body[0] == ds.take(ds.len() - n.scale)[0]);
            assert(s[0] == ds[0]);
        }
        assert(is_digit(s[0]));
        assert(s[0] != '-');
    }
    if n.scale == 0 {
        assert(ds == ds0);
        lemma_sp_digits_concat(ds0, rest);
        assert(sp_digits(s1) == (ds0, rest));
        if ds0[0] == '0' {
            assert(n.mantissa == 0);
            assert(ds0.len() == 1);
        }
        assert(rest.len() == 0 || rest[0] != '.');
        assert(sp_number(s) == Some((JsonNum { neg: n.neg, mantissa: n.mantissa, scale: 0 }, rest)));
        assert(JsonNum { neg: n.neg, mantissa: n.mantissa, scale: 0 } == n);
    } else {
        let k = ds.len() - n.scale;
        let ip = ds.take(k);
        let fp = ds.skip(k);
        assert(ds.len() >= n.scale + 1);
        assert(k >= 1);
        assert(forall|i: int| 0 <= i < ip.len() ==> is_digit(#[trigger] ip[i]));
        assert(forall|i: int| 0 <= i < fp.len() ==> is_digit(#[trigger] fp[i]));
        assert(s1 =~= ip + (seq!['.'] + fp + rest));
        assert(!is_digit('.'));
        assert((seq!['.'] + fp + rest)[0] == '.');
        lemma_sp_digits_concat(ip, seq!['.'] + fp + rest);
        assert(sp_digits(s1) == (ip, seq!['.'] + fp + rest));
        // no leading zero unless the integer part is the single digit 0
        if ip[0] == '0' && ip.len() > 1 {
            assert(ds[0] == '0');
            if ds0.len() >= n.scale + 1 {
                assert(ds == ds0);
                assert(n.mantissa == 0);
                assert(ds0.len() == 1);
                assert(n.scale + 1 <= 1);
            } else {
                assert(ds.len() == n.scale + 1);
                assert(ip.len() == 1);
            }
            assert(false);
        }
        assert((seq!['.'] + fp + rest).drop_first() =~= fp + rest);
        lemma_sp_digits_concat(fp, rest);
        assert(sp_digits(fp + rest) == (fp, rest));
        assert(fp.len() == n.scale);
        assert(ip + fp =~= ds);
        assert(digits_val(ip + fp) == n.mantissa);
        assert(sp_number(s) == Some(
            (JsonNum { neg: n.neg, mantissa: n.mantissa, scale: n.scale }, rest),
        ));
        assert(JsonNum { neg: n.neg, mantissa: n.mantissa, scale: n.scale } == n);
    }
}

/// Strings: an escaped body followed by its closing quote parses back to
/// exactly the original characters.
#[verifier::spinoff_prover]
#[verifier::rlimit(100)]
proof fn lemma_string_round_trip(t: Seq<char>, rest: Seq<char>)
    ensures
        sp_string(escape_str(t) + seq!['"'] + rest) == Some((t, rest)),
    decreases t.len(),
{
    let s = escape_str(t) + seq!['"'] + rest;
    if t.len() == 0 {
        assert(s =~= seq!['"'] + rest);
        assert(s[0] == '"');
        assert(s.drop_first() =~= rest);
        assert(t =~= Seq::<char>::empty());
    } else {
        lemma_string_round_trip(t.drop_first(), rest);
        let c = t[0];
        let e = escape_char(c);
        let tail = escape_str(t.drop_first()) + seq!['"'] + rest;
        assert(s =~= e + tail);
        assert(tail.len() >= 1);
        if c == '"' {
            assert(e == seq!['\\', '"']);
            assert(s[0] == '\\' && s[1] == '"');
            assert(s.len() >= 2);
            assert(esc_code('"') == Some('"'));
            assert(s.skip(2) =~= tail);
            assert(seq![c] + t.drop_first() =~= t);
        } else if c == '\\' {
            assert(e == seq!['\\', '\\']);
            assert(s[0] == '\\' && s[1] == '\\');
            assert(s.len() >= 2);
            assert(esc_code('\\') == Some('\\'));
            assert(s.skip(2) =~= tail);
            assert(seq![c] + t.drop_first() =~= t);
        } else if (c as u32) < 0x20 {
            let u = c as u32;
            assert(e == seq!['\\', 'u', '0', '0', hex_char(u as int / 16), hex_char(u as int % 16)]);
            assert(s[0] == '\\' && s[1] == 'u');
            assert(s[2] == '0' && s[3] == '0');
            assert(s[4] == hex_char(u as int / 16) && s[5] == hex_char(u as int % 16));
            assert(s.len() >= 7);
            assert(hex_val('0') == 0);
            lemma_hex_char_val(u as int / 16);
            lemma_hex_char_val(u as int % 16);
            let code = hex_val(s[2]) * 4096 + hex_val(s[3]) * 256 + hex_val(s[4]) * 16 + hex_val(
                s[5],
            );
            assert(code == u as int);
            assert(!(0xD800 <= code && code < 0xE000));
            assert(code as u32 == u) by {
                assert(0 <= code < 0x20);
            }
            lemma_control_cast(c);
            assert(((code as u32) as char) == c);
            assert(s.skip(6) =~= tail);
            assert(seq![c] + t.drop_first() =~= t);
        } else {
            assert(e == seq![c]);
            assert(s[0] == c);
            assert(s.drop_first() =~= tail);
            assert(seq![c] + t.drop_first() =~= t);
        }
    }
}

/// The first character of a rendered document: never whitespace and never a
/// closing or separating character, so rendered pieces do not run together.
proof fn lemma_render_head(v: JsonV)
    ensures
        render(v).len() >= 1,
        !is_ws(render(v)[0]),
        render(v)[0] != ']' && render(v)[0] != '}' && render(v)[0] != ',' && render(v)[0] != ':',
{
    match v {
        JsonV::Num(n) => {
            lemma_u64_digits_facts(n.mantissa);
            lemma_pad_facts(u64_digits(n.mantissa), n.scale + 1);
            let ds = pad_zeros(u64_digits(n.mantissa), n.scale + 1);
            if !n.neg {
                if n.scale == 0 {
                    assert(render(v)[0] == ds[0]);
                } else {
                    assert(render(v)[0] == ds.take(ds.len() - n.scale)[0]);
                    assert(render(v)[0] == ds[0]);
                }
                assert(is_digit(render(v)[0]));
            }
        },
        _ => {},
    }
}

/// One or more rendered elements followed by the closing bracket parse back
/// to exactly those elements.
#[verifier::spinoff_prover]
#[verifier::rlimit(100)]
proof fn lemma_parse_render_elems(elems: Seq<JsonV>, rest: Seq<char>)
    requires
        elems.len() >= 1,
    ensures
        sp_elems(render_elems(elems) + seq![']'] + rest) == Some((elems, rest)),
    decreases elems,
{
    let s = render_elems(elems) + seq![']'] + rest;
    if elems.len() == 1 {
        assert(render_elems(elems) == render(elems[0]));
        assert(s =~= render(elems[0]) + (seq![']'] + rest));
        assert(!is_digit(']') && ']' != '.');
        lemma_parse_render(elems[0], seq![']'] + rest);
        assert(sp_value(s) == Some((elems[0], seq![']'] + rest)));
        assert(!is_ws(']'));
        assert(skip_ws(seq![']'] + rest) == seq![']'] + rest);
        assert((seq![']'] + rest)[0] == ']');
        assert((seq![']'] + rest).drop_first() =~= rest);
        assert(seq![elems[0]] =~= elems);
    } else {
        let tail = seq![','] + render_elems(elems.drop_first()) + seq![']'] + rest;
        assert(render_elems(elems) == render(elems[0]) + seq![','] + render_elems(
            elems.drop_first(),
        ));
        assert(s =~= render(elems[0]) + tail);
        assert(tail[0] == ',');
        assert(!is_digit(',') && ',' != '.');
        lemma_parse_render(elems[0], tail);
        assert(sp_value(s) == Some((elems[0], tail)));
        assert(!is_ws(','));
        assert(skip_ws(tail) == tail);
        assert(tail.drop_first() =~= render_elems(elems.drop_first()) + seq![']'] + rest);
        lemma_render_head(elems[0]);
        assert(tail.drop_first().len() < s.len());
        lemma_parse_render_elems(elems.drop_first(), rest);
        assert(seq![elems[0]] + elems.drop_first() =~= elems);
    }
}

/// One or more rendered members followed by the closing brace parse back to
/// exactly those members.
#[verifier::spinoff_prover]
#[verifier::rlimit(100)]
proof fn lemma_parse_render_members(ms: Seq<(Seq<char>, JsonV)>, rest: Seq<char>)
    requires
        ms.len() >= 1,
    ensures
        sp_members(render_members(ms) + seq!['}'] + rest) == Some((ms, rest)),
    decreases ms,
{
    let s = render_members(ms) + seq!['}'] + rest;
    let key = ms[0].0;
    let v0 = ms[0].1;
    let kv = seq!['"'] + escape_str(key) + seq!['"', ':'] + render(v0);
    let tail = if ms.len() == 1 {
        seq!['}'] + rest
    } else {
        seq![','] + render_members(ms.drop_first()) + seq!['}'] + rest
    };
    assert(s =~= kv + tail);
    assert(s[0] == '"');
    assert(!is_ws('"'));
    assert(skip_ws(s) == s);
    let after_key = seq![':'] + render(v0) + tail;
    assert(s.drop_first() =~= escape_str(key) + seq!['"'] + after_key);
    lemma_string_round_trip(key, after_key);
    assert(sp_string(s.drop_first()) == Some((key, after_key)));
    assert(after_key[0] == ':');
    assert(!is_ws(':'));
    assert(skip_ws(after_key) == after_key);
    assert(after_key.drop_first() =~= render(v0) + tail);
    assert(after_key.drop_first().len() <= s.len());
    if ms.len() == 1 {
        assert(tail[0] == '}');
        assert(!is_digit('}') && '}' != '.');
        lemma_parse_render(v0, tail);
        assert(sp_value(render(v0) + tail) == Some((v0, tail)));
        assert(!is_ws('}'));
        assert(skip_ws(tail) == tail);
        assert(tail.drop_first() =~= rest);
        assert(seq![(key, v0)] =~= ms);
    } else {
        assert(tail[0] == ',');
        assert(!is_digit(',') && ',' != '.');
        lemma_parse_render(v0, tail);
        assert(sp_value(render(v0) + tail) == Some((v0, tail)));
        assert(!is_ws(','));
        assert(skip_ws(tail) == tail);
        assert(tail.drop_first() =~= render_members(ms.drop_first()) + seq!['}'] + rest);
        lemma_render_head(v0);
        assert(tail.drop_first().len() < s.len());
        lemma_parse_render_members(ms.drop_first(), rest);
        assert(seq![(key, v0)] + ms.drop_first() =~= ms);
    }
}

/// A rendered document, followed by anything that cannot extend a number,
/// parses back to exactly that document with the rest untouched.
#[verifier::spinoff_prover]
#[verifier::rlimit(100)]
proof fn lemma_parse_render(v: JsonV, rest: Seq<char>)
    requires
        num_boundary(rest),
    ensures
        sp_value(render(v) + rest) == Some((v, rest)),
    decreases v,
{
    let s = render(v) + rest;
    lemma_render_head(v);
    assert(s[0] == render(v)[0]);
    assert(!is_ws(s[0]));
    assert(skip_ws(s) == s);
    match v {
        JsonV::Null => {
            assert(s[0] == 'n' && s[1] == 'u' && s[2] == 'l' && s[3] == 'l');
            assert(s.len() >= 4);
            assert(s.skip(4) =~= rest);
            assert(sp_value(s) == Some((v, rest)));
        },
        JsonV::Bool(b) => {
            if b {
                assert(s[0] == 't' && s[1] == 'r' && s[2] == 'u' && s[3] == 'e');
                assert(s.len() >= 4);
                assert(s.skip(4) =~= rest);
                assert(sp_value(s) == Some((v, rest)));
            } else {
                assert(s[0] == 'f' && s[1] == 'a' && s[2] == 'l' && s[3] == 's' && s[4] == 'e');
                assert(s.len() >= 5);
                assert(s.skip(5) =~= rest);
                assert(sp_value(s) == Some((v, rest)));
            }
        },
        JsonV::Num(n) => {
            lemma_num_round_trip(n, rest);
            assert(s[0] == '-' || is_digit(s[0]));
            assert(sp_value(s) == Some((v, rest)));
        },
        JsonV::Str(sc) => {
            assert(s[0] == '"');
            assert(s.drop_first() =~= escape_str(sc) + seq!['"'] + rest);
            lemma_string_round_trip(sc, rest);
            assert(sp_value(s) == Some((v, rest)));
        },
        JsonV::Arr(elems) => {
            assert(s[0] == '[');
            if elems.len() == 0 {
                assert(render_elems(elems) == Seq::<char>::empty());
                assert(s.drop_first() =~= seq![']'] + rest);
                assert(!is_ws(']'));
                assert(skip_ws(seq![']'] + rest) == seq![']'] + rest);
                assert((seq![']'] + rest)[0] == ']');
                assert((seq![']'] + rest).drop_first() =~= rest);
                assert(elems =~= Seq::<JsonV>::empty());
                assert(sp_value(s) == Some((v, rest)));
            } else {
                let u = render_elems(elems) + seq![']'] + rest;
                assert(s.drop_first() =~= u);
                lemma_render_head(elems[0]);
                if elems.len() == 1 {
                    assert(u[0] == render(elems[0])[0]);
                } else {
                    assert(render_elems(elems)[0] == render(elems[0])[0]);
                    assert(u[0] == render(elems[0])[0]);
                }
                assert(!is_ws(u[0]));
                assert(skip_ws(u) == u);
                assert(u[0] != ']');
                assert(u.len() < s.len());
                lemma_parse_render_elems(elems, rest);
                assert(sp_value(s) == Some((v, rest)));
            }
        },
        JsonV::Obj(ms) => {
            assert(s[0] == '{');
            if ms.len() == 0 {
                assert(render_members(ms) == Seq::<char>::empty());
                assert(s.drop_first() =~= seq!['}'] + rest);
                assert(!is_ws('}'));
                assert(skip_ws(seq!['}'] + rest) == seq!['}'] + rest);
                assert((seq!['}'] + rest)[0] == '}');
                assert((seq!['}'] + rest).drop_first() =~= rest);
                assert(ms =~= Seq::<(Seq<char>, JsonV)>::empty());
                assert(sp_value(s) == Some((v, rest)));
            } else {
                let u = render_members(ms) + seq!['}'] + rest;
                assert(s.drop_first() =~= u);
                assert(render_members(ms)[0] == '"');
                assert(u[0] == '"');
                assert(!is_ws('"'));
                assert(skip_ws(u) == u);
                assert(u[0] != '}');
                assert(u.len() < s.len());
                lemma_parse_render_members(ms, rest);
                assert(sp_value(s) == Some((v, rest)));
            }
        },
    }
}

/// Law: parsing the canonical text of any document gives back exactly that
/// document.
pub proof fn lemma_json_round_trip(v: JsonV)
    ensures
        json_parse(render(v)) == Some(v),
{
    assert(render(v) + Seq::<char>::empty() =~= render(v));
    lemma_parse_render(v, Seq::empty());
    assert(skip_ws(Seq::<char>::empty()).len() == 0);
}

/// Parses a whole text as one JSON document; returns the document exactly
/// when the spec parser accepts the text.
pub fn parse_json(s: &Vec<char>) -> (r: Option<Json>)
    ensures
        (match r {
            Some(j) => json_parse(s@) == Some(j@),
            None => json_parse(s@) is None,
        }),
{
    proof {
        assert(s@.skip(0) =~= s@);
    }
    match x_value(s, 0) {
        None => None,
        Some((j, k)) => {
            let k2 = x_skip_ws(s, k);
            if k2 == s.len() {
                proof {
                    assert(s@.skip(k2 as int) =~= Seq::<char>::empty());
                }
                Some(j)
            } else {
                proof {
                    assert(s@.skip(k2 as int).len() > 0);
                }
                None
            }
        },
    }
}

} // verus!
