use vstd::prelude::*;
use crate::jsontext::{is_ws, unesc, ws_only, parse_string_body, str_eq, ws_only_from,
    lemma_unesc_shrinks};

verus! {

/// Characters that can stand in an unquoted JSON scalar: numbers, booleans
/// and null are runs of these.
pub open spec fn is_atom_char(c: char) -> bool {
    !(is_ws(c) || c == ',' || c == ':' || c == '"' || c == '{' || c == '}' || c == '['
        || c == ']')
}

/// First position at or after `i` that holds no whitespace.
pub open spec fn ws_end(s: Seq<char>, i: int) -> int
    decreases s.len() - i when 0 <= i <= s.len()
{
    if i < s.len() && is_ws(s[i]) {
        ws_end(s, i + 1)
    } else {
        i
    }
}

/// First position at or after `i` that ends a run of atom characters.
pub open spec fn atom_end(s: Seq<char>, i: int) -> int
    decreases s.len() - i when 0 <= i <= s.len()
{
    if i < s.len() && is_atom_char(s[i]) {
        atom_end(s, i + 1)
    } else {
        i
    }
}

/// Position just past the JSON value that starts at `i`: a string, an object,
/// an array, or a run of atom characters. `None` when no value starts there.
pub open spec fn value_end(s: Seq<char>, i: int) -> Option<int>
    decreases s.len() - i, 1int when 0 <= i <= s.len()
{
    if i >= s.len() {
        None
    } else if s[i] == '"' {
        match unesc(s.skip(i + 1)) {
            Some(p) => Some(s.len() - p.1.len()),
            None => None,
        }
    } else if s[i] == '{' {
        members_end(s, i + 1)
    } else if s[i] == '[' {
        elements_end(s, i + 1)
    } else if is_atom_char(s[i]) {
        Some(atom_end(s, i))
    } else {
        None
    }
}

/// Position just past one object member starting at its key's opening quote
/// `j`: the key string, whitespace, a colon, whitespace, then a value.
pub open spec fn member_end(s: Seq<char>, j: int) -> Option<int>
    decreases s.len() - j, 2int when 0 <= j <= s.len()
{
    if j >= s.len() {
        None
    } else if s[j] == '"' {
        match unesc(s.skip(j + 1)) {
            Some(p) => {
                let k = s.len() - p.1.len();
                if !(j < k <= s.len()) {
                    None
                } else {
                    let q = ws_end(s, k);
                    if !(k <= q <= s.len()) {
                        None
                    } else if q < s.len() && s[q] == ':' {
                        let v = ws_end(s, q + 1);
                        if !(q < v <= s.len()) {
                            None
                        } else {
                            value_end(s, v)
                        }
                    } else {
                        None
                    }
                }
            },
            None => None,
        }
    } else {
        None
    }
}

/// Position just past the closing brace of the object whose body begins at
/// `i` (just after its opening brace): nothing, or members with exactly one
/// comma between each pair.
pub open spec fn members_end(s: Seq<char>, i: int) -> Option<int>
    decreases s.len() - i, 3int when 0 <= i <= s.len()
{
    let j = ws_end(s, i);
    if !(i <= j <= s.len()) {
        None
    } else if j >= s.len() {
        None
    } else if s[j] == '}' {
        Some(j + 1)
    } else {
        match member_end(s, j) {
            Some(e) => if i < e <= s.len() {
                members_more(s, e)
            } else {
                None
            },
            None => None,
        }
    }
}

/// After one member: whitespace, then the closing brace, or a comma and the
/// next member.
pub open spec fn members_more(s: Seq<char>, i: int) -> Option<int>
    decreases s.len() - i, 4int when 0 <= i <= s.len()
{
    let j = ws_end(s, i);
    if !(i <= j <= s.len()) {
        None
    } else if j >= s.len() {
        None
    } else if s[j] == '}' {
        Some(j + 1)
    } else if s[j] == ',' {
        let k = ws_end(s, j + 1);
        if !(j < k <= s.len()) {
            None
        } else {
            match member_end(s, k) {
                Some(e) => if i < e <= s.len() {
                    members_more(s, e)
                } else {
                    None
                },
                None => None,
            }
        }
    } else {
        None
    }
}

/// Position just past the closing bracket of the array whose body begins at
/// `i` (just after its opening bracket): nothing, or values with exactly one
/// comma between each pair.
pub open spec fn elements_end(s: Seq<char>, i: int) -> Option<int>
    decreases s.len() - i, 3int when 0 <= i <= s.len()
{
    let j = ws_end(s, i);
    if !(i <= j <= s.len()) {
        None
    } else if j >= s.len() {
        None
    } else if s[j] == ']' {
        Some(j + 1)
    } else {
        match value_end(s, j) {
            Some(e) => if i < e <= s.len() {
                elements_more(s, e)
            } else {
                None
            },
            None => None,
        }
    }
}

/// After one element: whitespace, then the closing bracket, or a comma and
/// the next value.
pub open spec fn elements_more(s: Seq<char>, i: int) -> Option<int>
    decreases s.len() - i, 4int when 0 <= i <= s.len()
{
    let j = ws_end(s, i);
    if !(i <= j <= s.len()) {
        None
    } else if j >= s.len() {
        None
    } else if s[j] == ']' {
        Some(j + 1)
    } else if s[j] == ',' {
        let k = ws_end(s, j + 1);
        if !(j < k <= s.len()) {
            None
        } else {
            match value_end(s, k) {
                Some(e) => if i < e <= s.len() {
                    elements_more(s, e)
                } else {
                    None
                },
                None => None,
            }
        }
    } else {
        None
    }
}

/// Position of the value for `key` among the members beginning at `i` (just
/// after the object's opening brace), walking member and comma exactly as
/// `members_end` does; `None` when the object closes first.
pub open spec fn find_key(s: Seq<char>, i: int, key: Seq<char>) -> Option<int>
    decreases s.len() - i, 5int when 0 <= i <= s.len()
{
    let j = ws_end(s, i);
    if !(i <= j <= s.len()) {
        None
    } else if j >= s.len() {
        None
    } else if s[j] == '"' {
        match unesc(s.skip(j + 1)) {
            Some(p) => {
                let k = s.len() - p.1.len();
                if !(j < k <= s.len()) {
                    None
                } else {
                    let q = ws_end(s, k);
                    if !(k <= q <= s.len()) {
                        None
                    } else if q < s.len() && s[q] == ':' {
                        let v = ws_end(s, q + 1);
                        if !(q < v <= s.len()) {
                            None
                        } else if p.0 == key {
                            Some(v)
                        } else {
                            match value_end(s, v) {
                                Some(e) => if i < e <= s.len() {
                                    let j2 = ws_end(s, e);
                                    if e <= j2 < s.len() && s[j2] == ',' {
                                        find_key(s, j2 + 1, key)
                                    } else {
                                        None
                                    }
                                } else {
                                    None
                                },
                                None => None,
                            }
                        }
                    } else {
                        None
                    }
                }
            },
            None => None,
        }
    } else {
        None
    }
}

/// Walks to the first position at or after `i` that holds no whitespace.
pub fn ws_end_at(s: &str, i: usize) -> (r: usize)
    requires
        i <= s@.len(),
    ensures
        i <= r <= s@.len(),
        r == ws_end(s@, i as int),
{
    let n = s.unicode_len();
    let mut j: usize = i;
    while j < n
        invariant
            i <= j <= n,
            n == s@.len(),
            ws_end(s@, i as int) == ws_end(s@, j as int),
        decreases n - j,
    {
        let c = s.get_char(j);
        if !(c == ' ' || c == '\t' || c == '\n' || c == '\r') {
            return j;
        }
        j += 1;
    }
    j
}

/// Walks to the end of the run of atom characters starting at `i`.
pub fn atom_end_at(s: &str, i: usize) -> (r: usize)
    requires
        i <= s@.len(),
    ensures
        i <= r <= s@.len(),
        r == atom_end(s@, i as int),
{
    let n = s.unicode_len();
    let mut j: usize = i;
    while j < n
        invariant
            i <= j <= n,
            n == s@.len(),
            atom_end(s@, i as int) == atom_end(s@, j as int),
        decreases n - j,
    {
        let c = s.get_char(j);
        if c == ' ' || c == '\t' || c == '\n' || c == '\r' || c == ',' || c == ':' || c == '"'
            || c == '{' || c == '}' || c == '[' || c == ']' {
            return j;
        }
        j += 1;
    }
    j
}

/// Walks past the JSON value starting at `i`, as `value_end` reads it.
pub fn value_end_at(s: &str, i: usize) -> (r: Option<usize>)
    requires
        i <= s@.len(),
    ensures
        match r {
            Some(e) => i < e <= s@.len() && value_end(s@, i as int) == Some(e as int),
            None => value_end(s@, i as int) is None,
        },
    decreases s@.len() - i, 1int,
{
    let n = s.unicode_len();
    if i >= n {
        return None;
    }
    let c = s.get_char(i);
    if c == '"' {
        match parse_string_body(s, i + 1) {
            None => None,
            Some((_content, e)) => {
                proof {
                    lemma_unesc_shrinks(s@.skip(i + 1));
                    assert(s@.skip(e as int).len() == s@.len() - e);
                }
                Some(e)
            },
        }
    } else if c == '{' {
        members_end_at(s, i + 1)
    } else if c == '[' {
        elements_end_at(s, i + 1)
    } else if c == ' ' || c == '\t' || c == '\n' || c == '\r' || c == ',' || c == ':' || c == '}'
        || c == ']' {
        None
    } else {
        let e = atom_end_at(s, i + 1);
        proof {
            assert(atom_end(s@, i as int) == atom_end(s@, i + 1));
        }
        Some(e)
    }
}

/// Walks past one object member whose key's quote stands at `j`, as
/// `member_end` reads it.
pub fn member_end_at(s: &str, j: usize) -> (r: Option<usize>)
    requires
        j <= s@.len(),
    ensures
        match r {
            Some(e) => j < e <= s@.len() && member_end(s@, j as int) == Some(e as int),
            None => member_end(s@, j as int) is None,
        },
    decreases s@.len() - j, 2int,
{
    let n = s.unicode_len();
    if j >= n {
        return None;
    }
    if s.get_char(j) != '"' {
        return None;
    }
    match parse_string_body(s, j + 1) {
        None => None,
        Some((_key, k)) => {
            proof {
                lemma_unesc_shrinks(s@.skip(j + 1));
                assert(s@.skip(k as int).len() == s@.len() - k);
            }
            let q = ws_end_at(s, k);
            if q >= n {
                return None;
            }
            if s.get_char(q) != ':' {
                return None;
            }
            let v = ws_end_at(s, q + 1);
            value_end_at(s, v)
        },
    }
}

/// Walks past the members of the object whose body starts at `i`, as
/// `members_end` reads them.
pub fn members_end_at(s: &str, i: usize) -> (r: Option<usize>)
    requires
        i <= s@.len(),
    ensures
        match r {
            Some(e) => i < e <= s@.len() && members_end(s@, i as int) == Some(e as int),
            None => members_end(s@, i as int) is None,
        },
    decreases s@.len() - i, 3int,
{
    let n = s.unicode_len();
    let j = ws_end_at(s, i);
    if j >= n {
        return None;
    }
    if s.get_char(j) == '}' {
        return Some(j + 1);
    }
    match member_end_at(s, j) {
        None => None,
        Some(e) => members_more_at(s, e),
    }
}

/// Walks past what follows one member, as `members_more` reads it.
pub fn members_more_at(s: &str, i: usize) -> (r: Option<usize>)
    requires
        i <= s@.len(),
    ensures
        match r {
            Some(e) => i < e <= s@.len() && members_more(s@, i as int) == Some(e as int),
            None => members_more(s@, i as int) is None,
        },
    decreases s@.len() - i, 4int,
{
    let n = s.unicode_len();
    let j = ws_end_at(s, i);
    if j >= n {
        return None;
    }
    let c = s.get_char(j);
    if c == '}' {
        return Some(j + 1);
    }
    if c != ',' {
        return None;
    }
    let k = ws_end_at(s, j + 1);
    match member_end_at(s, k) {
        None => None,
        Some(e) => members_more_at(s, e),
    }
}

/// Walks past the elements of the array whose body starts at `i`, as
/// `elements_end` reads them.
pub fn elements_end_at(s: &str, i: usize) -> (r: Option<usize>)
    requires
        i <= s@.len(),
    ensures
        match r {
            Some(e) => i < e <= s@.len() && elements_end(s@, i as int) == Some(e as int),
            None => elements_end(s@, i as int) is None,
        },
    decreases s@.len() - i, 3int,
{
    let n = s.unicode_len();
    let j = ws_end_at(s, i);
    if j >= n {
        return None;
    }
    if s.get_char(j) == ']' {
        return Some(j + 1);
    }
    match value_end_at(s, j) {
        None => None,
        Some(e) => elements_more_at(s, e),
    }
}

/// Walks past what follows one element, as `elements_more` reads it.
pub fn elements_more_at(s: &str, i: usize) -> (r: Option<usize>)
    requires
        i <= s@.len(),
    ensures
        match r {
            Some(e) => i < e <= s@.len() && elements_more(s@, i as int) == Some(e as int),
            None => elements_more(s@, i as int) is None,
        },
    decreases s@.len() - i, 4int,
{
    let n = s.unicode_len();
    let j = ws_end_at(s, i);
    if j >= n {
        return None;
    }
    let c = s.get_char(j);
    if c == ']' {
        return Some(j + 1);
    }
    if c != ',' {
        return None;
    }
    let k = ws_end_at(s, j + 1);
    match value_end_at(s, k) {
        None => None,
        Some(e) => elements_more_at(s, e),
    }
}

/// True exactly when the text is one whole JSON object — in the shapes this
/// crate walks — followed only by whitespace.
pub open spec fn well_formed_object(s: Seq<char>) -> bool {
    let i0 = ws_end(s, 0);
    &&& 0 <= i0 < s.len()
    &&& s[i0] == '{'
    &&& (members_end(s, i0 + 1) matches Some(e) && ws_only(s.skip(e)))
}

/// Checks that the text is one whole JSON object followed only by whitespace.
pub fn check_object(s: &str) -> (r: bool)
    ensures
        r == well_formed_object(s@),
{
    let n = s.unicode_len();
    let i0 = ws_end_at(s, 0);
    if i0 >= n {
        return false;
    }
    if s.get_char(i0) != '{' {
        return false;
    }
    match members_end_at(s, i0 + 1) {
        None => false,
        Some(e) => ws_only_from(s, e),
    }
}

/// Finds the value position of `key` among the members starting at `i`, as
/// `find_key` reads them.
pub fn find_key_at(s: &str, i: usize, key: &str) -> (r: Option<usize>)
    requires
        i <= s@.len(),
    ensures
        match r {
            Some(v) => i < v <= s@.len() && find_key(s@, i as int, key@) == Some(v as int),
            None => find_key(s@, i as int, key@) is None,
        },
    decreases s@.len() - i, 5int,
{
    let n = s.unicode_len();
    let j = ws_end_at(s, i);
    if j >= n {
        return None;
    }
    if s.get_char(j) != '"' {
        return None;
    }
    match parse_string_body(s, j + 1) {
        None => None,
        Some((found_key, k)) => {
            proof {
                lemma_unesc_shrinks(s@.skip(j + 1));
                assert(s@.skip(k as int).len() == s@.len() - k);
            }
            let q = ws_end_at(s, k);
            if q >= n {
                return None;
            }
            if s.get_char(q) != ':' {
                return None;
            }
            let v = ws_end_at(s, q + 1);
            if str_eq(found_key.as_str(), key) {
                Some(v)
            } else {
                match value_end_at(s, v) {
                    None => None,
                    Some(e) => {
                        let j2 = ws_end_at(s, e);
                        if j2 >= n {
                            return None;
                        }
                        if s.get_char(j2) != ',' {
                            return None;
                        }
                        find_key_at(s, j2 + 1, key)
                    },
                }
            }
        },
    }
}

} // verus!
