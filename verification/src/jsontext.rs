use vstd::prelude::*;

verus! {

/// Characters that cannot stand bare inside a JSON string literal: the quote,
/// the backslash, and the control characters.
pub open spec fn needs_escape(c: char) -> bool {
    c == '"' || c == '\\' || (c as u32) < 0x20
}

/// The letter of a control character's short escape, if it has one.
pub open spec fn short_code(c: char) -> Option<char> {
    if c == '\u{8}' {
        Some('b')
    } else if c == '\u{c}' {
        Some('f')
    } else if c == '\n' {
        Some('n')
    } else if c == '\r' {
        Some('r')
    } else if c == '\t' {
        Some('t')
    } else {
        None
    }
}

/// The character a single-letter escape stands for, if any.
pub open spec fn esc_code(c: char) -> Option<char> {
    if c == '"' {
        Some('"')
    } else if c == '\\' {
        Some('\\')
    } else if c == '/' {
        Some('/')
    } else if c == 'b' {
        Some('\u{8}')
    } else if c == 'f' {
        Some('\u{c}')
    } else if c == 'n' {
        Some('\n')
    } else if c == 'r' {
        Some('\r')
    } else if c == 't' {
        Some('\t')
    } else {
        None
    }
}

/// The numeric value of a hexadecimal digit, if any.
pub open spec fn hex_val(c: char) -> Option<nat> {
    if '0' <= c && c <= '9' {
        Some((c as u32 - '0' as u32) as nat)
    } else if 'a' <= c && c <= 'f' {
        Some((c as u32 - 'a' as u32 + 10) as nat)
    } else if 'A' <= c && c <= 'F' {
        Some((c as u32 - 'A' as u32 + 10) as nat)
    } else {
        None
    }
}

/// The lower-case hexadecimal digit for a value below sixteen.
pub open spec fn hex_char(d: nat) -> char {
    if d == 0 {
        '0'
    } else if d == 1 {
        '1'
    } else if d == 2 {
        '2'
    } else if d == 3 {
        '3'
    } else if d == 4 {
        '4'
    } else if d == 5 {
        '5'
    } else if d == 6 {
        '6'
    } else if d == 7 {
        '7'
    } else if d == 8 {
        '8'
    } else if d == 9 {
        '9'
    } else if d == 10 {
        'a'
    } else if d == 11 {
        'b'
    } else if d == 12 {
        'c'
    } else if d == 13 {
        'd'
    } else if d == 14 {
        'e'
    } else {
        'f'
    }
}

/// The value of four hexadecimal digits, most significant first.
pub open spec fn hex4_val(a: char, b: char, c: char, d: char) -> Option<nat> {
    match (hex_val(a), hex_val(b), hex_val(c), hex_val(d)) {
        (Some(x), Some(y), Some(z), Some(w)) => Some(x * 4096 + y * 256 + z * 16 + w),
        _ => None,
    }
}

/// Whether a value is one a character can hold: not a surrogate, in range.
pub open spec fn is_scalar(n: nat) -> bool {
    n < 0xD800 || (0xE000 <= n && n <= 0x10FFFF)
}

/// The character with the given scalar value.
pub open spec fn char_of(n: nat) -> char {
    choose|c: char| (#[trigger] (c as u32)) == n
}

/// `char_of` inverts the scalar value of a character.
pub proof fn lemma_char_of(c: char)
    ensures
        char_of((c as u32) as nat) == c,
{
    let n = (c as u32) as nat;
    assert(exists|x: char| (#[trigger] (x as u32)) == n) by {
        assert(c as u32 == n);
    }
    let d = char_of(n);
    assert(d as u32 == n);
    assert(d == c);
}

/// The escaped form of one character: quotes and backslashes get a backslash,
/// control characters their short escape or a `\u00XX` form, everything else
/// stands bare.
pub open spec fn esc_char(c: char) -> Seq<char> {
    if c == '"' || c == '\\' {
        seq!['\\', c]
    } else if (c as u32) < 0x20 {
        match short_code(c) {
            Some(l) => seq!['\\', l],
            None => seq![
                '\\',
                'u',
                '0',
                '0',
                hex_char(((c as u32) / 16) as nat),
                hex_char(((c as u32) % 16) as nat),
            ],
        }
    } else {
        seq![c]
    }
}

/// The escaped form of a whole string: each character written as `esc_char`
/// says.
pub open spec fn esc(s: Seq<char>) -> Seq<char>
    decreases s.len(),
{
    if s.len() == 0 {
        Seq::empty()
    } else {
        esc_char(s[0]) + esc(s.skip(1))
    }
}

pub proof fn lemma_esc_concat(a: Seq<char>, b: Seq<char>)
    ensures
        esc(a + b) == esc(a) + esc(b),
    decreases a.len(),
{
    if a.len() == 0 {
        assert(a + b =~= b);
        assert(esc(a) + esc(b) =~= esc(b));
    } else {
        lemma_esc_concat(a.skip(1), b);
        assert((a + b).skip(1) =~= a.skip(1) + b);
        assert(esc(a + b) =~= esc(a) + esc(b));
    }
}

pub proof fn lemma_esc_ordinary(a: Seq<char>)
    requires
        forall|i: int| 0 <= i < a.len() ==> !needs_escape(a[i]),
    ensures
        esc(a) == a,
    decreases a.len(),
{
    if a.len() == 0 {
        assert(esc(a) =~= a);
    } else {
        lemma_esc_ordinary(a.skip(1));
        assert(esc(a) =~= a);
    }
}

/// The scalar value a surrogate pair encodes.
pub open spec fn pair_scalar(hi: nat, lo: nat) -> nat {
    (0x10000 + (hi - 0xD800) * 0x400 + (lo - 0xDC00)) as nat
}

/// Reading one JSON string body from the front of `s`: the decoded characters
/// and whatever follows the closing quote, with the standard escapes — the
/// single-letter ones, `\uXXXX` for a non-surrogate value, and a surrogate
/// pair of `\uXXXX` escapes for one astral character. `None` when the input
/// ends before the closing quote, an escape is unsupported, a surrogate
/// escape is unpaired, or a control character stands bare.
pub open spec fn unesc(s: Seq<char>) -> Option<(Seq<char>, Seq<char>)>
    decreases s.len(),
{
    if s.len() == 0 {
        None
    } else if s[0] == '"' {
        Some((Seq::empty(), s.skip(1)))
    } else if s[0] == '\\' {
        if s.len() >= 2 && s[1] == 'u' {
            if s.len() >= 6 {
                match hex4_val(s[2], s[3], s[4], s[5]) {
                    Some(n) => if 0xD800 <= n < 0xDC00 {
                        if s.len() >= 12 && s[6] == '\\' && s[7] == 'u' {
                            match hex4_val(s[8], s[9], s[10], s[11]) {
                                Some(m) => if 0xDC00 <= m < 0xE000 {
                                    prepend_body(
                                        seq![char_of(pair_scalar(n, m))],
                                        unesc(s.skip(12)),
                                    )
                                } else {
                                    None
                                },
                                None => None,
                            }
                        } else {
                            None
                        }
                    } else if 0xDC00 <= n < 0xE000 {
                        None
                    } else {
                        prepend_body(seq![char_of(n)], unesc(s.skip(6)))
                    },
                    None => None,
                }
            } else {
                None
            }
        } else if s.len() >= 2 {
            match esc_code(s[1]) {
                Some(c) => prepend_body(seq![c], unesc(s.skip(2))),
                None => None,
            }
        } else {
            None
        }
    } else if (s[0] as u32) < 0x20 {
        None
    } else {
        prepend_body(seq![s[0]], unesc(s.skip(1)))
    }
}

/// Prefixes decoded characters onto the pending result of `unesc`.
pub open spec fn prepend_body(
    pre: Seq<char>,
    r: Option<(Seq<char>, Seq<char>)>,
) -> Option<(Seq<char>, Seq<char>)> {
    match r {
        Some(p) => Some((pre + p.0, p.1)),
        None => None,
    }
}

pub proof fn lemma_prepend_body_concat(
    a: Seq<char>,
    b: Seq<char>,
    r: Option<(Seq<char>, Seq<char>)>,
)
    ensures
        prepend_body(a, prepend_body(b, r)) == prepend_body(a + b, r),
{
    match r {
        Some(p) => {
            assert(a + (b + p.0) =~= (a + b) + p.0);
        },
        None => {},
    }
}

/// Decoding an escaped string terminated by a quote recovers the original
/// string and leaves exactly what followed the quote.
#[verifier::rlimit(50)]
pub proof fn lemma_unesc_esc(s: Seq<char>, rest: Seq<char>)
    ensures
        unesc(esc(s) + seq!['"'] + rest) == Some((s, rest)),
    decreases s.len(),
{
    let t = esc(s) + seq!['"'] + rest;
    if s.len() == 0 {
        assert(t =~= seq!['"'] + rest);
        assert(t[0] == '"');
        assert(t.skip(1) =~= rest);
    } else {
        let c = s[0];
        lemma_unesc_esc(s.skip(1), rest);
        assert(esc(s) == esc_char(c) + esc(s.skip(1)));
        assert(seq![c] + s.skip(1) =~= s);
        if c == '"' || c == '\\' {
            assert(esc_char(c) == seq!['\\', c]);
            assert(t[0] == '\\' && t[1] == c && t.len() >= 2);
            assert(t[1] != 'u');
            assert(esc_code(c) == Some(c));
            assert(t.skip(2) =~= esc(s.skip(1)) + seq!['"'] + rest);
        } else if (c as u32) < 0x20 {
            match short_code(c) {
                Some(l) => {
                    assert(esc_char(c) == seq!['\\', l]);
                    assert(t[0] == '\\' && t[1] == l && t.len() >= 2);
                    assert(l != 'u');
                    assert(esc_code(l) == Some(c));
                    assert(t.skip(2) =~= esc(s.skip(1)) + seq!['"'] + rest);
                },
                None => {
                    let n = (c as u32) as nat;
                    let h1 = hex_char(n / 16);
                    let h0 = hex_char(n % 16);
                    assert(esc_char(c) == seq!['\\', 'u', '0', '0', h1, h0]);
                    assert(t.len() >= 6);
                    assert(t[0] == '\\' && t[1] == 'u' && t[2] == '0' && t[3] == '0');
                    assert(t[4] == h1 && t[5] == h0);
                    assert(hex_val('0') == Some(0nat));
                    assert(hex_val(h1) == Some(n / 16));
                    assert(hex_val(h0) == Some(n % 16));
                    assert((n / 16) * 16 + n % 16 == n);
                    assert(hex4_val(t[2], t[3], t[4], t[5]) == Some(n));
                    assert(is_scalar(n));
                    lemma_char_of(c);
                    assert(char_of(n) == c);
                    assert(t.skip(6) =~= esc(s.skip(1)) + seq!['"'] + rest);
                },
            }
        } else {
            assert(esc_char(c) == seq![c]);
            assert(t[0] == c);
            assert(t.skip(1) =~= esc(s.skip(1)) + seq!['"'] + rest);
        }
    }
}

/// A decoded string body always consumes at least its closing quote.
pub proof fn lemma_unesc_shrinks(t: Seq<char>)
    ensures
        unesc(t) matches Some(p) ==> p.1.len() < t.len(),
    decreases t.len(),
{
    if t.len() == 0 {
    } else if t[0] == '"' {
    } else if t[0] == '\\' {
        if t.len() >= 2 && t[1] == 'u' {
            if t.len() >= 12 {
                lemma_unesc_shrinks(t.skip(12));
            }
            if t.len() >= 6 {
                lemma_unesc_shrinks(t.skip(6));
            }
        } else if t.len() >= 2 {
            lemma_unesc_shrinks(t.skip(2));
        }
    } else {
        lemma_unesc_shrinks(t.skip(1));
    }
}

pub open spec fn is_ws(c: char) -> bool {
    c == ' ' || c == '\t' || c == '\n' || c == '\r'
}

pub open spec fn ws_only(s: Seq<char>) -> bool {
    forall|i: int| 0 <= i < s.len() ==> is_ws(s[i])
}

/// True exactly when `p` occurs in `s` starting at character position `i`.
pub fn match_lit(s: &str, i: usize, p: &str) -> (r: bool)
    requires
        i <= s@.len(),
    ensures
        r <==> (i + p@.len() <= s@.len() && s@.subrange(i as int, i + p@.len()) == p@),
        s@.len() <= usize::MAX,
{
    let n = s.unicode_len();
    let m = p.unicode_len();
    if n - i < m {
        return false;
    }
    let mut j: usize = 0;
    while j < m
        invariant
            i + m <= n,
            n == s@.len(),
            m == p@.len(),
            j <= m,
            forall|k: int| 0 <= k < j ==> s@[i + k] == p@[k],
        decreases m - j,
    {
        if s.get_char(i + j) != p.get_char(j) {
            assert(s@.subrange(i as int, i + p@.len())[j as int] == s@[i + j]);
            return false;
        }
        j += 1;
    }
    assert(s@.subrange(i as int, i + p@.len()) =~= p@);
    true
}

/// True exactly when the two strings hold the same characters.
pub fn str_eq(a: &str, b: &str) -> (r: bool)
    ensures
        r == (a@ == b@),
{
    let la = a.unicode_len();
    let lb = b.unicode_len();
    if la != lb {
        return false;
    }
    let m = match_lit(a, 0, b);
    proof {
        assert(a@.subrange(0, b@.len() as int) =~= a@);
    }
    m
}

/// Relies on char::from_u32: it returns the character with the given scalar
/// value, and some character exactly when the value is one a character can
/// hold (not a surrogate, at most 0x10FFFF).
#[verifier::external_body]
fn char_from_u32(n: u32) -> (r: Option<char>)
    ensures
        (r matches Some(c) ==> c as u32 == n),
        r is Some <==> is_scalar(n as nat),
{
    char::from_u32(n)
}

/// Relies on String::push: it appends exactly the given character.
#[verifier::external_body]
fn push_char(out: &mut String, c: char)
    ensures
        final(out)@ == old(out)@ + seq![c],
{
    out.push(c);
}

/// The numeric value of one hexadecimal digit character.
fn hex_digit(c: char) -> (r: Option<u32>)
    ensures
        match r {
            Some(v) => hex_val(c) == Some(v as nat) && v < 16,
            None => hex_val(c) is None,
        },
{
    if '0' <= c && c <= '9' {
        Some(c as u32 - '0' as u32)
    } else if 'a' <= c && c <= 'f' {
        Some(c as u32 - 'a' as u32 + 10)
    } else if 'A' <= c && c <= 'F' {
        Some(c as u32 - 'A' as u32 + 10)
    } else {
        None
    }
}

/// Appends one lower-case hexadecimal digit character.
fn append_hex_digit(out: &mut String, d: u32)
    requires
        d < 16,
    ensures
        final(out)@ == old(out)@ + seq![hex_char(d as nat)],
{
    if d == 0 {
        out.append("0");
    } else if d == 1 {
        out.append("1");
    } else if d == 2 {
        out.append("2");
    } else if d == 3 {
        out.append("3");
    } else if d == 4 {
        out.append("4");
    } else if d == 5 {
        out.append("5");
    } else if d == 6 {
        out.append("6");
    } else if d == 7 {
        out.append("7");
    } else if d == 8 {
        out.append("8");
    } else if d == 9 {
        out.append("9");
    } else if d == 10 {
        out.append("a");
    } else if d == 11 {
        out.append("b");
    } else if d == 12 {
        out.append("c");
    } else if d == 13 {
        out.append("d");
    } else if d == 14 {
        out.append("e");
    } else {
        out.append("f");
    }
    proof {
        reveal_strlit("0");
        reveal_strlit("1");
        reveal_strlit("2");
        reveal_strlit("3");
        reveal_strlit("4");
        reveal_strlit("5");
        reveal_strlit("6");
        reveal_strlit("7");
        reveal_strlit("8");
        reveal_strlit("9");
        reveal_strlit("a");
        reveal_strlit("b");
        reveal_strlit("c");
        reveal_strlit("d");
        reveal_strlit("e");
        reveal_strlit("f");
        assert(final(out)@ =~= old(out)@ + seq![hex_char(d as nat)]);
    }
}

/// Appends the escaped form of one character that cannot stand bare.
fn append_escape_char(out: &mut String, c: char)
    requires
        needs_escape(c),
    ensures
        final(out)@ == old(out)@ + esc_char(c),
{
    if c == '"' {
        out.append("\\\"");
        proof {
            reveal_strlit("\\\"");
            assert(final(out)@ =~= old(out)@ + esc_char(c));
        }
    } else if c == '\\' {
        out.append("\\\\");
        proof {
            reveal_strlit("\\\\");
            assert(final(out)@ =~= old(out)@ + esc_char(c));
        }
    } else if c == '\u{8}' {
        out.append("\\b");
        proof {
            reveal_strlit("\\b");
            assert(final(out)@ =~= old(out)@ + esc_char(c));
        }
    } else if c == '\u{c}' {
        out.append("\\f");
        proof {
            reveal_strlit("\\f");
            assert(final(out)@ =~= old(out)@ + esc_char(c));
        }
    } else if c == '\n' {
        out.append("\\n");
        proof {
            reveal_strlit("\\n");
            assert(final(out)@ =~= old(out)@ + esc_char(c));
        }
    } else if c == '\r' {
        out.append("\\r");
        proof {
            reveal_strlit("\\r");
            assert(final(out)@ =~= old(out)@ + esc_char(c));
        }
    } else if c == '\t' {
        out.append("\\t");
        proof {
            reveal_strlit("\\t");
            assert(final(out)@ =~= old(out)@ + esc_char(c));
        }
    } else {
        out.append("\\u00");
        let u = c as u32;
        append_hex_digit(out, u / 16);
        append_hex_digit(out, u % 16);
        proof {
            reveal_strlit("\\u00");
            assert((c as u32) < 0x20);
            assert(short_code(c) is None);
            assert(final(out)@ =~= old(out)@ + esc_char(c));
        }
    }
}

/// Appends the character a single-letter escape stands for; false, appending
/// nothing, when the letter is no escape.
fn append_escape_decoded(out: &mut String, d: char) -> (r: bool)
    ensures
        r == (esc_code(d) is Some),
        match esc_code(d) {
            Some(x) => final(out)@ == old(out)@ + seq![x],
            None => final(out)@ == old(out)@,
        },
{
    if d == '"' {
        out.append("\"");
        proof {
            reveal_strlit("\"");
            assert(final(out)@ =~= old(out)@ + seq!['"']);
        }
        true
    } else if d == '\\' {
        out.append("\\");
        proof {
            reveal_strlit("\\");
            assert(final(out)@ =~= old(out)@ + seq!['\\']);
        }
        true
    } else if d == '/' {
        out.append("/");
        proof {
            reveal_strlit("/");
            assert(final(out)@ =~= old(out)@ + seq!['/']);
        }
        true
    } else if d == 'b' {
        out.append("\u{8}");
        proof {
            reveal_strlit("\u{8}");
            assert(final(out)@ =~= old(out)@ + seq!['\u{8}']);
        }
        true
    } else if d == 'f' {
        out.append("\u{c}");
        proof {
            reveal_strlit("\u{c}");
            assert(final(out)@ =~= old(out)@ + seq!['\u{c}']);
        }
        true
    } else if d == 'n' {
        out.append("\n");
        proof {
            reveal_strlit("\n");
            assert(final(out)@ =~= old(out)@ + seq!['\n']);
        }
        true
    } else if d == 'r' {
        out.append("\r");
        proof {
            reveal_strlit("\r");
            assert(final(out)@ =~= old(out)@ + seq!['\r']);
        }
        true
    } else if d == 't' {
        out.append("\t");
        proof {
            reveal_strlit("\t");
            assert(final(out)@ =~= old(out)@ + seq!['\t']);
        }
        true
    } else {
        false
    }
}

/// Decodes one `\uXXXX` escape, or a surrogate pair of them, standing at
/// `pos`; returns the character and the position just past the escape.
#[verifier::rlimit(100)]
fn parse_unicode_escape(s: &str, pos: usize) -> (r: Option<(char, usize)>)
    requires
        pos + 2 <= s@.len(),
        s@[pos as int] == '\\',
        s@[pos + 1] == 'u',
    ensures
        match r {
            Some(p) => pos + 2 < p.1 <= s@.len() && unesc(s@.skip(pos as int)) == prepend_body(
                seq![p.0],
                unesc(s@.skip(p.1 as int)),
            ),
            None => unesc(s@.skip(pos as int)) is None,
        },
{
    let n = s.unicode_len();
    let ghost t = s@.skip(pos as int);
    assert(t[0] == s@[pos as int] && t[1] == s@[pos + 1]);
    if n - pos < 6 {
        return None;
    }
    assert(t[2] == s@[pos + 2] && t[3] == s@[pos + 3]);
    assert(t[4] == s@[pos + 4] && t[5] == s@[pos + 5]);
    let h3 = match hex_digit(s.get_char(pos + 2)) {
        None => {
            return None;
        },
        Some(v) => v,
    };
    let h2 = match hex_digit(s.get_char(pos + 3)) {
        None => {
            return None;
        },
        Some(v) => v,
    };
    let h1 = match hex_digit(s.get_char(pos + 4)) {
        None => {
            return None;
        },
        Some(v) => v,
    };
    let h0 = match hex_digit(s.get_char(pos + 5)) {
        None => {
            return None;
        },
        Some(v) => v,
    };
    let nv: u32 = h3 * 4096 + h2 * 256 + h1 * 16 + h0;
    proof {
        assert(hex4_val(t[2], t[3], t[4], t[5]) == Some(nv as nat));
    }
    if 0xD800 <= nv && nv < 0xDC00 {
        if n - pos < 12 {
            return None;
        }
        assert(t[6] == s@[pos + 6] && t[7] == s@[pos + 7]);
        if s.get_char(pos + 6) != '\\' || s.get_char(pos + 7) != 'u' {
            return None;
        }
        assert(t[8] == s@[pos + 8] && t[9] == s@[pos + 9]);
        assert(t[10] == s@[pos + 10] && t[11] == s@[pos + 11]);
        let g3 = match hex_digit(s.get_char(pos + 8)) {
            None => {
                return None;
            },
            Some(v) => v,
        };
        let g2 = match hex_digit(s.get_char(pos + 9)) {
            None => {
                return None;
            },
            Some(v) => v,
        };
        let g1 = match hex_digit(s.get_char(pos + 10)) {
            None => {
                return None;
            },
            Some(v) => v,
        };
        let g0 = match hex_digit(s.get_char(pos + 11)) {
            None => {
                return None;
            },
            Some(v) => v,
        };
        let mv: u32 = g3 * 4096 + g2 * 256 + g1 * 16 + g0;
        proof {
            assert(hex4_val(t[8], t[9], t[10], t[11]) == Some(mv as nat));
        }
        if !(0xDC00 <= mv && mv < 0xE000) {
            return None;
        }
        let sc: u32 = 0x10000 + (nv - 0xD800) * 0x400 + (mv - 0xDC00);
        let ch = match char_from_u32(sc) {
            Some(ch) => ch,
            None => {
                proof {
                    assert(false);
                }
                '0'
            },
        };
        proof {
            assert(sc as nat == pair_scalar(nv as nat, mv as nat));
            assert(is_scalar(sc as nat));
            lemma_char_of(ch);
            assert(char_of(sc as nat) == ch);
            assert(t.skip(12) =~= s@.skip(pos + 12));
            assert(unesc(t) == prepend_body(seq![ch], unesc(s@.skip(pos + 12))));
        }
        Some((ch, pos + 12))
    } else if 0xDC00 <= nv && nv < 0xE000 {
        None
    } else {
        let ch = match char_from_u32(nv) {
            Some(ch) => ch,
            None => {
                proof {
                    assert(false);
                }
                '0'
            },
        };
        proof {
            assert(is_scalar(nv as nat));
            lemma_char_of(ch);
            assert(char_of(nv as nat) == ch);
            assert(t.skip(6) =~= s@.skip(pos + 6));
            assert(unesc(t) == prepend_body(seq![ch], unesc(s@.skip(pos + 6))));
        }
        Some((ch, pos + 6))
    }
}

/// Appends the escaped form of `s` to `out`.
pub fn append_escaped(out: &mut String, s: &str)
    ensures
        final(out)@ == old(out)@ + esc(s@),
{
    let n = s.unicode_len();
    let ghost orig = out@;
    let mut run: usize = 0;
    let mut i: usize = 0;
    while i < n
        invariant
            run <= i <= n,
            n == s@.len(),
            forall|k: int| run <= k < i ==> !needs_escape(s@[k]),
            out@ == orig + esc(s@.subrange(0, run as int)),
        decreases n - i,
    {
        let c = s.get_char(i);
        if c == '"' || c == '\\' || (c as u32) < 0x20 {
            let chunk = s.substring_char(run, i);
            out.append(chunk);
            append_escape_char(out, c);
            proof {
                let ci = s@[i as int];
                let one = seq![ci];
                assert(one.skip(1) =~= Seq::<char>::empty());
                assert(esc(Seq::<char>::empty()) == Seq::<char>::empty());
                assert(esc(one) == esc_char(ci) + esc(one.skip(1)));
                assert(esc(one) =~= esc_char(ci));
                lemma_esc_ordinary(s@.subrange(run as int, i as int));
                lemma_esc_concat(s@.subrange(0, run as int), s@.subrange(run as int, i as int));
                assert(s@.subrange(0, run as int) + s@.subrange(run as int, i as int)
                    =~= s@.subrange(0, i as int));
                lemma_esc_concat(s@.subrange(0, i as int), one);
                assert(s@.subrange(0, i as int) + one =~= s@.subrange(0, i + 1));
                assert(out@ =~= orig + esc(s@.subrange(0, i + 1)));
            }
            run = i + 1;
        }
        i += 1;
    }
    let chunk = s.substring_char(run, n);
    out.append(chunk);
    proof {
        lemma_esc_ordinary(s@.subrange(run as int, n as int));
        lemma_esc_concat(s@.subrange(0, run as int), s@.subrange(run as int, n as int));
        assert(s@.subrange(0, run as int) + s@.subrange(run as int, n as int)
            =~= s@.subrange(0, n as int));
        assert(s@.subrange(0, n as int) =~= s@);
        assert(out@ =~= orig + esc(s@));
    }
}

/// Reads one JSON string body starting at position `i` (just after the opening
/// quote), decoding the standard escapes; returns the decoded text and
/// the position just past the closing quote.
#[verifier::rlimit(100)]
pub fn parse_string_body(s: &str, i: usize) -> (r: Option<(String, usize)>)
    requires
        i <= s@.len(),
    ensures
        match r {
            Some(p) => p.1 <= s@.len() && unesc(s@.skip(i as int)) == Some((
                p.0@,
                s@.skip(p.1 as int),
            )),
            None => unesc(s@.skip(i as int)) is None,
        },
{
    let n = s.unicode_len();
    let mut out = String::new();
    let mut run: usize = i;
    let mut pos: usize = i;
    loop
        invariant
            i <= run <= pos <= n,
            n == s@.len(),
            forall|k: int| run <= k < pos ==> (s@[k] != '"' && s@[k] != '\\'),
            unesc(s@.skip(i as int)) == prepend_body(
                out@ + s@.subrange(run as int, pos as int),
                unesc(s@.skip(pos as int)),
            ),
        decreases n - pos,
    {
        let ghost t = s@.skip(pos as int);
        let ghost out_pre = out@;
        if pos == n {
            assert(t =~= Seq::<char>::empty());
            return None;
        }
        assert(t[0] == s@[pos as int]);
        let c = s.get_char(pos);
        if c == '"' {
            let chunk = s.substring_char(run, pos);
            out.append(chunk);
            proof {
                assert(t.skip(1) =~= s@.skip(pos + 1));
                assert(unesc(t) == Some((Seq::<char>::empty(), s@.skip(pos + 1))));
                assert(out_pre + s@.subrange(run as int, pos as int) + Seq::<char>::empty()
                    =~= out@);
            }
            return Some((out, pos + 1));
        } else if c == '\\' {
            if pos + 1 == n {
                assert(t.len() == 1);
                return None;
            }
            assert(t[1] == s@[pos + 1]);
            let d = s.get_char(pos + 1);
            if d == 'u' {
                match parse_unicode_escape(s, pos) {
                    None => {
                        return None;
                    },
                    Some((ch, np)) => {
                        let chunk = s.substring_char(run, pos);
                        out.append(chunk);
                        push_char(&mut out, ch);
                        proof {
                            lemma_prepend_body_concat(
                                out_pre + s@.subrange(run as int, pos as int),
                                seq![ch],
                                unesc(s@.skip(np as int)),
                            );
                            assert(out@ =~= out_pre + s@.subrange(run as int, pos as int)
                                + seq![ch]);
                            assert(out@ + s@.subrange(np as int, np as int) =~= out@);
                        }
                        run = np;
                        pos = np;
                    },
                }
            } else {
                let chunk = s.substring_char(run, pos);
                out.append(chunk);
                let ok = append_escape_decoded(&mut out, d);
                if !ok {
                    return None;
                }
                proof {
                    assert(t.skip(2) =~= s@.skip(pos + 2));
                    match esc_code(s@[pos + 1]) {
                        Some(x) => {
                            assert(unesc(t) == prepend_body(seq![x], unesc(s@.skip(pos + 2))));
                            lemma_prepend_body_concat(
                                out_pre + s@.subrange(run as int, pos as int),
                                seq![x],
                                unesc(s@.skip(pos + 2)),
                            );
                            assert(out@ =~= out_pre + s@.subrange(run as int, pos as int)
                                + seq![x]);
                            assert(out@ + s@.subrange(pos + 2, pos + 2) =~= out@);
                        },
                        None => {
                            assert(false);
                        },
                    }
                }
                run = pos + 2;
                pos = pos + 2;
            }
        } else if (c as u32) < 0x20 {
            return None;
        } else {
            proof {
                assert(t.skip(1) =~= s@.skip(pos + 1));
                assert(unesc(t) == prepend_body(seq![s@[pos as int]], unesc(s@.skip(pos + 1))));
                lemma_prepend_body_concat(
                    out@ + s@.subrange(run as int, pos as int),
                    seq![s@[pos as int]],
                    unesc(s@.skip(pos + 1)),
                );
                assert(out@ + s@.subrange(run as int, pos as int) + seq![s@[pos as int]]
                    =~= out@ + s@.subrange(run as int, pos + 1));
            }
            pos = pos + 1;
        }
    }
}

/// True exactly when everything from position `i` on is whitespace.
pub fn ws_only_from(s: &str, i: usize) -> (r: bool)
    requires
        i <= s@.len(),
    ensures
        r == ws_only(s@.skip(i as int)),
{
    let n = s.unicode_len();
    let mut j: usize = i;
    while j < n
        invariant
            i <= j <= n,
            n == s@.len(),
            forall|k: int| i <= k < j ==> is_ws(s@[k]),
        decreases n - j,
    {
        let c = s.get_char(j);
        if !(c == ' ' || c == '\t' || c == '\n' || c == '\r') {
            assert(s@.skip(i as int)[j - i] == s@[j as int]);
            return false;
        }
        j += 1;
    }
    assert forall|k: int| 0 <= k < s@.skip(i as int).len() implies is_ws(s@.skip(i as int)[k]) by {
        assert(s@.skip(i as int)[k] == s@[k + i]);
    }
    true
}

} // verus!
