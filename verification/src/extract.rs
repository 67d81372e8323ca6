//! Static extraction of callable function names from untrusted bundle text.
//!
//! This is a purely syntactic, non-executing heuristic, not a parser.  The
//! primary rule looks for a `functions : {` header and collects the keys of
//! the object literal behind it: the first identifier directly behind the
//! opening brace, and every `, identifier : {` that stands at the same
//! nesting depth inside the block, in first-seen order with duplicates
//! suppressed.  When no header exists at all, a fallback scans the whole
//! text for `identifier : { … handler : … }` entries (no braces between the
//! opening brace and the `handler` key), excluding the reserved identifiers
//! `meta`, `functions` and `Package`.

use vstd::prelude::*;

verus! {

/// Whitespace as the scanner understands it.
pub open spec fn is_space(c: char) -> bool {
    c == ' ' || c == '\t' || c == '\n' || c == '\r' || c == '\u{b}' || c == '\u{c}'
}

/// A character that may start an identifier.
pub open spec fn is_ident_start(c: char) -> bool {
    ('a' <= c && c <= 'z') || ('A' <= c && c <= 'Z') || c == '_'
}

/// A character that may continue an identifier.
pub open spec fn is_ident_char(c: char) -> bool {
    is_ident_start(c) || ('0' <= c && c <= '9')
}

/// The index of the first non-whitespace character at or behind `i`.
pub open spec fn skip_spaces(s: Seq<char>, i: int) -> int
    decreases s.len() - i,
{
    if 0 <= i < s.len() && is_space(s[i]) {
        skip_spaces(s, i + 1)
    } else {
        i
    }
}

/// `skip_spaces` lands between `i` and the length, on a non-space.
pub proof fn lemma_skip_spaces_range(s: Seq<char>, i: int)
    requires
        0 <= i <= s.len(),
    ensures
        i <= skip_spaces(s, i) <= s.len(),
        skip_spaces(s, i) < s.len() ==> !is_space(s[skip_spaces(s, i)]),
    decreases s.len() - i,
{
    if i < s.len() && is_space(s[i]) {
        lemma_skip_spaces_range(s, i + 1);
    }
}

/// The end of the identifier run beginning at `i`.
pub open spec fn ident_end(s: Seq<char>, i: int) -> int
    decreases s.len() - i,
{
    if 0 <= i < s.len() && is_ident_char(s[i]) {
        ident_end(s, i + 1)
    } else {
        i
    }
}

/// Whether `word` stands letter for letter at position `i` of `s`.
pub open spec fn matches_at(s: Seq<char>, i: int, word: Seq<char>) -> bool {
    0 <= i && i + word.len() <= s.len() && s.subrange(i, i + word.len()) == word
}

/// The header keyword.
pub open spec fn functions_word() -> Seq<char> {
    seq!['f', 'u', 'n', 'c', 't', 'i', 'o', 'n', 's']
}

/// The fallback keyword.
pub open spec fn handler_word() -> Seq<char> {
    seq!['h', 'a', 'n', 'd', 'l', 'e', 'r']
}

/// Reserved keys the fallback never reports as function names.
pub open spec fn reserved_names() -> Seq<Seq<char>> {
    seq![
        seq!['m', 'e', 't', 'a'],
        functions_word(),
        seq!['P', 'a', 'c', 'k', 'a', 'g', 'e'],
    ]
}

/// If `functions`, optional spaces, `:`, optional spaces, `{` stand at
/// position `i`, the index directly behind that `{`.
pub open spec fn header_end_at(s: Seq<char>, i: int) -> Option<int> {
    if matches_at(s, i, functions_word()) {
        let q = skip_spaces(s, i + functions_word().len());
        if q < s.len() && s[q] == ':' {
            let t = skip_spaces(s, q + 1);
            if t < s.len() && s[t] == '{' {
                Some(t + 1)
            } else {
                None
            }
        } else {
            None
        }
    } else {
        None
    }
}

/// The end of the first `functions : {` header at or behind `i`, if any.
pub open spec fn find_header(s: Seq<char>, i: int) -> Option<int>
    decreases s.len() - i,
{
    if i >= s.len() || i < 0 {
        None
    } else {
        match header_end_at(s, i) {
            Some(b) => Some(b),
            None => find_header(s, i + 1),
        }
    }
}

/// The first key of the block whose body starts at `b`: optional spaces, an
/// identifier, optional spaces, `:`, optional spaces, `{`.  Returns the key
/// and the index directly behind that `{`.
pub open spec fn first_name_at(s: Seq<char>, b: int) -> Option<(Seq<char>, int)> {
    let q = skip_spaces(s, b);
    if q < s.len() && is_ident_start(s[q]) {
        let e = ident_end(s, q + 1);
        let t = skip_spaces(s, e);
        if t < s.len() && s[t] == ':' {
            let u = skip_spaces(s, t + 1);
            if u < s.len() && s[u] == '{' {
                Some((s.subrange(q, e), u + 1))
            } else {
                None
            }
        } else {
            None
        }
    } else {
        None
    }
}

/// A further key announced by a comma at position `i`: `,`, optional
/// spaces, an identifier, optional spaces, `:`, optional spaces, `{`.
/// Returns the key and the index directly behind that `{`.
pub open spec fn comma_name_at(s: Seq<char>, i: int) -> Option<(Seq<char>, int)> {
    first_name_at(s, i + 1)
}

/// Walks the block body from `i` at brace depth `depth` (relative to the
/// block's opening brace) and collects every comma-announced key that
/// stands at depth 1, in order, without duplicates.  The walk ends at the
/// end of the text or when the block's closing brace brings the depth to
/// zero.
pub open spec fn scan_block(s: Seq<char>, i: int, depth: int, acc: Seq<Seq<char>>) -> Seq<
    Seq<char>,
>
    decreases s.len() - i,
{
    if i < 0 || i >= s.len() || depth <= 0 {
        acc
    } else if s[i] == '{' {
        scan_block(s, i + 1, depth + 1, acc)
    } else if s[i] == '}' {
        scan_block(s, i + 1, depth - 1, acc)
    } else if s[i] == ',' && depth == 1 {
        match comma_name_at(s, i) {
            Some((name, next)) => {
                let acc2 = if acc.contains(name) {
                    acc
                } else {
                    acc.push(name)
                };
                let step = if i < next <= s.len() {
                    next
                } else {
                    i + 1
                };
                scan_block(s, step, depth + 1, acc2)
            },
            None => scan_block(s, i + 1, depth, acc),
        }
    } else {
        scan_block(s, i + 1, depth, acc)
    }
}

/// From `k` on, the position of the `:` behind the first `handler` key that
/// is reachable without crossing a brace: every character before it is no
/// brace, the character before it is no identifier character, and behind
/// `handler` stand optional spaces and `:`.
pub open spec fn find_handler(s: Seq<char>, k: int) -> Option<int>
    decreases s.len() - k,
{
    if k < 1 || k >= s.len() {
        None
    } else if s[k] == '{' || s[k] == '}' {
        None
    } else if matches_at(s, k, handler_word()) && !is_ident_char(s[k - 1]) && {
        let t = skip_spaces(s, k + handler_word().len());
        t < s.len() && s[t] == ':'
    } {
        Some(skip_spaces(s, k + handler_word().len()))
    } else {
        find_handler(s, k + 1)
    }
}

/// A fallback entry at position `i`: a maximal identifier, optional spaces,
/// `:`, optional spaces, `{`, and then a `handler` key before any further
/// brace.  Returns the identifier and the index directly behind the
/// `handler` key's `:`.
pub open spec fn fallback_at(s: Seq<char>, i: int) -> Option<(Seq<char>, int)> {
    if 0 <= i < s.len() && is_ident_start(s[i]) && (i == 0 || !is_ident_char(s[i - 1])) {
        let e = ident_end(s, i + 1);
        let t = skip_spaces(s, e);
        if t < s.len() && s[t] == ':' {
            let u = skip_spaces(s, t + 1);
            if u < s.len() && s[u] == '{' {
                match find_handler(s, u + 1) {
                    Some(c) => Some((s.subrange(i, e), c + 1)),
                    None => None,
                }
            } else {
                None
            }
        } else {
            None
        }
    } else {
        None
    }
}

/// Walks the whole text and collects every fallback entry's identifier, in
/// order, without duplicates and without the reserved keys.
pub open spec fn fallback_scan(s: Seq<char>, i: int, acc: Seq<Seq<char>>) -> Seq<Seq<char>>
    decreases s.len() - i,
{
    if i < 0 || i >= s.len() {
        acc
    } else {
        match fallback_at(s, i) {
            Some((name, next)) => {
                let acc2 = if reserved_names().contains(name) || acc.contains(name) {
                    acc
                } else {
                    acc.push(name)
                };
                let step = if i < next <= s.len() {
                    next
                } else {
                    i + 1
                };
                fallback_scan(s, step, acc2)
            },
            None => fallback_scan(s, i + 1, acc),
        }
    }
}

/// The function names the heuristic reads out of a bundle text: the keys of
/// the `functions : {` block when such a header exists, else the fallback
/// entries of the whole text.
pub open spec fn spec_extract_function_names(s: Seq<char>) -> Seq<Seq<char>> {
    match find_header(s, 0) {
        Some(b) => {
            let init = match first_name_at(s, b) {
                Some((name, _)) => seq![name],
                None => Seq::<Seq<char>>::empty(),
            };
            scan_block(s, b, 1, init)
        },
        None => fallback_scan(s, 0, Seq::<Seq<char>>::empty()),
    }
}

/// Whether the character is scanner whitespace.
pub(crate) fn is_space_exec(c: char) -> (r: bool)
    ensures
        r == is_space(c),
{
    c == ' ' || c == '\t' || c == '\n' || c == '\r' || c == '\u{b}' || c == '\u{c}'
}

/// Whether the character may start an identifier.
fn is_ident_start_exec(c: char) -> (r: bool)
    ensures
        r == is_ident_start(c),
{
    ('a' <= c && c <= 'z') || ('A' <= c && c <= 'Z') || c == '_'
}

/// Whether the character may continue an identifier.
fn is_ident_char_exec(c: char) -> (r: bool)
    ensures
        r == is_ident_char(c),
{
    is_ident_start_exec(c) || ('0' <= c && c <= '9')
}

/// The first non-whitespace position at or behind `i`.
pub(crate) fn skip_ws(cs: &Vec<char>, i: usize) -> (r: usize)
    requires
        i <= cs@.len(),
    ensures
        r as int == skip_spaces(cs@, i as int),
        i <= r <= cs@.len(),
{
    let mut j: usize = i;
    while j < cs.len() && is_space_exec(cs[j])
        invariant
            i <= j <= cs@.len(),
            skip_spaces(cs@, i as int) == skip_spaces(cs@, j as int),
        decreases cs@.len() - j,
    {
        j = j + 1;
    }
    j
}

/// The end of the identifier run beginning at `i`.
fn ident_end_exec(cs: &Vec<char>, i: usize) -> (r: usize)
    requires
        i <= cs@.len(),
    ensures
        r as int == ident_end(cs@, i as int),
        i <= r <= cs@.len(),
{
    let mut j: usize = i;
    while j < cs.len() && is_ident_char_exec(cs[j])
        invariant
            i <= j <= cs@.len(),
            ident_end(cs@, i as int) == ident_end(cs@, j as int),
        decreases cs@.len() - j,
    {
        j = j + 1;
    }
    j
}

/// Whether the word `functions` stands at position `i`.
fn functions_at(cs: &Vec<char>, i: usize) -> (r: bool)
    ensures
        r == matches_at(cs@, i as int, functions_word()),
{
    proof {
        assert(functions_word().len() == 9);
    }
    if i > cs.len() || cs.len() - i < 9 {
        return false;
    }
    let r = cs[i] == 'f' && cs[i + 1] == 'u' && cs[i + 2] == 'n' && cs[i + 3] == 'c' && cs[i + 4]
        == 't' && cs[i + 5] == 'i' && cs[i + 6] == 'o' && cs[i + 7] == 'n' && cs[i + 8] == 's';
    proof {
        if r {
            assert(cs@.subrange(i as int, i as int + 9) =~= functions_word());
        } else {
            if cs@.subrange(i as int, i as int + 9) == functions_word() {
                assert(forall|k: int| 0 <= k < 9 ==> cs@.subrange(i as int, i as int + 9)[k]
                    == functions_word()[k]);
                assert(false);
            }
        }
    }
    r
}

/// Whether the word `handler` stands at position `i`.
fn handler_at(cs: &Vec<char>, i: usize) -> (r: bool)
    ensures
        r == matches_at(cs@, i as int, handler_word()),
{
    proof {
        assert(handler_word().len() == 7);
    }
    if i > cs.len() || cs.len() - i < 7 {
        return false;
    }
    let r = cs[i] == 'h' && cs[i + 1] == 'a' && cs[i + 2] == 'n' && cs[i + 3] == 'd' && cs[i + 4]
        == 'l' && cs[i + 5] == 'e' && cs[i + 6] == 'r';
    proof {
        if r {
            assert(cs@.subrange(i as int, i as int + 7) =~= handler_word());
        } else {
            if cs@.subrange(i as int, i as int + 7) == handler_word() {
                assert(forall|k: int| 0 <= k < 7 ==> cs@.subrange(i as int, i as int + 7)[k]
                    == handler_word()[k]);
                assert(false);
            }
        }
    }
    r
}

/// The end of a `functions : {` header standing at position `i`, if any.
fn header_end_exec(cs: &Vec<char>, i: usize) -> (r: Option<usize>)
    requires
        i <= cs@.len(),
    ensures
        match r {
            Some(b) => header_end_at(cs@, i as int) == Some(b as int) && i < b <= cs@.len(),
            None => header_end_at(cs@, i as int) is None,
        },
{
    if !functions_at(cs, i) {
        return None;
    }
    let n = cs.len();
    proof {
        assert(functions_word().len() == 9);
        assert(i as int + 9 <= n as int);
    }
    let q = skip_ws(cs, i + 9);
    if !(q < cs.len() && cs[q] == ':') {
        return None;
    }
    let t = skip_ws(cs, q + 1);
    if !(t < cs.len() && cs[t] == '{') {
        return None;
    }
    Some(t + 1)
}

/// The end of the first `functions : {` header of the text, if any.
fn find_header_exec(cs: &Vec<char>) -> (r: Option<usize>)
    ensures
        match r {
            Some(b) => find_header(cs@, 0) == Some(b as int) && 0 < b <= cs@.len(),
            None => find_header(cs@, 0) is None,
        },
{
    let mut i: usize = 0;
    while i < cs.len()
        invariant
            i <= cs@.len(),
            find_header(cs@, 0) == find_header(cs@, i as int),
        decreases cs@.len() - i,
    {
        if let Some(b) = header_end_exec(cs, i) {
            return Some(b);
        }
        i = i + 1;
    }
    None
}

/// A key of the shape `identifier : {` standing (behind optional spaces) at
/// position `b`: its identifier bounds and the index behind its `{`.
fn first_name_exec(cs: &Vec<char>, b: usize) -> (r: Option<(usize, usize, usize)>)
    requires
        b <= cs@.len(),
    ensures
        match r {
            Some((q, e, next)) => {
                &&& first_name_at(cs@, b as int) == Some(
                    (cs@.subrange(q as int, e as int), next as int),
                )
                &&& b <= q < e <= cs@.len()
                &&& b < next <= cs@.len()
            },
            None => first_name_at(cs@, b as int) is None,
        },
{
    let q = skip_ws(cs, b);
    if !(q < cs.len() && is_ident_start_exec(cs[q])) {
        return None;
    }
    let e = ident_end_exec(cs, q + 1);
    let t = skip_ws(cs, e);
    if !(t < cs.len() && cs[t] == ':') {
        return None;
    }
    let u = skip_ws(cs, t + 1);
    if !(u < cs.len() && cs[u] == '{') {
        return None;
    }
    Some((q, e, u + 1))
}

/// The `:` behind the first reachable `handler` key at or behind `k`, with
/// no brace in between, if any.
fn find_handler_exec(cs: &Vec<char>, k: usize) -> (r: Option<usize>)
    requires
        1 <= k,
    ensures
        match r {
            Some(c) => find_handler(cs@, k as int) == Some(c as int) && k < c < cs@.len(),
            None => find_handler(cs@, k as int) is None,
        },
{
    let mut j: usize = k;
    while j < cs.len()
        invariant
            k <= j,
            j <= cs@.len() || j == k,
            1 <= k,
            find_handler(cs@, k as int) == find_handler(cs@, j as int),
        decreases cs@.len() - j,
    {
        if cs[j] == '{' || cs[j] == '}' {
            return None;
        }
        if handler_at(cs, j) && !is_ident_char_exec(cs[j - 1]) {
            let t = skip_ws(cs, j + 7);
            if t < cs.len() && cs[t] == ':' {
                return Some(t);
            }
        }
        j = j + 1;
    }
    None
}

/// A fallback entry standing at position `i`: its identifier bounds and the
/// index behind its `handler` key's `:`.
fn fallback_at_exec(cs: &Vec<char>, i: usize) -> (r: Option<(usize, usize, usize)>)
    requires
        i < cs@.len(),
    ensures
        match r {
            Some((q, e, next)) => {
                &&& fallback_at(cs@, i as int) == Some(
                    (cs@.subrange(q as int, e as int), next as int),
                )
                &&& i == q < e <= cs@.len()
                &&& i < next <= cs@.len()
            },
            None => fallback_at(cs@, i as int) is None,
        },
{
    let n = cs.len();
    if !is_ident_start_exec(cs[i]) {
        return None;
    }
    if i > 0 && is_ident_char_exec(cs[i - 1]) {
        return None;
    }
    proof {
        assert(i < n);
    }
    let e = ident_end_exec(cs, i + 1);
    let t = skip_ws(cs, e);
    if !(t < cs.len() && cs[t] == ':') {
        return None;
    }
    let u = skip_ws(cs, t + 1);
    if !(u < cs.len() && cs[u] == '{') {
        return None;
    }
    match find_handler_exec(cs, u + 1) {
        Some(c) => Some((i, e, c + 1)),
        None => None,
    }
}

/// Whether the name is one of the reserved keys the fallback suppresses.
fn is_reserved_exec(name: &String) -> (r: bool)
    ensures
        r == reserved_names().contains(name@),
{
    proof {
        reveal_strlit("meta");
        reveal_strlit("functions");
        reveal_strlit("Package");
        assert("meta"@ =~= reserved_names()[0]);
        assert("functions"@ =~= reserved_names()[1]);
        assert("Package"@ =~= reserved_names()[2]);
    }
    let r = crate::text::string_eq_str(name, "meta") || crate::text::string_eq_str(
        name,
        "functions",
    ) || crate::text::string_eq_str(name, "Package");
    proof {
        if r {
            assert(reserved_names().contains(name@));
        } else {
            assert(forall|j: int| 0 <= j < reserved_names().len() ==> reserved_names()[j]
                != name@);
        }
    }
    r
}

/// Reads the callable function names out of a bundle text.
///
/// This never evaluates the bundle: it is the pure text scan whose rules
/// the spec functions above state, applied to the text's characters.
pub fn extract_function_names(package_js: &str) -> (r: Vec<String>)
    ensures
        r.deep_view() == spec_extract_function_names(package_js@),
{
    let cs = crate::text::chars_of(package_js);
    let ghost s = cs@;
    let mut acc: Vec<String> = Vec::new();
    match find_header_exec(&cs) {
        Some(b) => {
            let ghost init = match first_name_at(s, b as int) {
                Some((name, _)) => seq![name],
                None => Seq::<Seq<char>>::empty(),
            };
            if let Some((q, e, _next)) = first_name_exec(&cs, b) {
                acc.push(crate::text::substring_string(&cs, q, e));
            }
            proof {
                assert(acc.deep_view() =~= init);
            }
            let mut i: usize = b;
            let mut depth: usize = 1;
            while i < cs.len() && depth > 0
                invariant
                    1 <= b <= i,
                    i <= s.len(),
                    s == cs@,
                    depth <= 1 + i - b,
                    scan_block(s, b as int, 1, init) == scan_block(
                        s,
                        i as int,
                        depth as int,
                        acc.deep_view(),
                    ),
                decreases s.len() - i,
            {
                let c = cs[i];
                if c == '{' {
                    i = i + 1;
                    depth = depth + 1;
                } else if c == '}' {
                    i = i + 1;
                    depth = depth - 1;
                } else if c == ',' && depth == 1 {
                    match first_name_exec(&cs, i + 1) {
                        Some((q, e, next)) => {
                            let ghost acc0 = acc.deep_view();
                            let name = crate::text::substring_string(&cs, q, e);
                            if !crate::text::vec_contains_str(&acc, name.as_str()) {
                                acc.push(name);
                                proof {
                                    assert(acc.deep_view() =~= acc0.push(s.subrange(
                                        q as int,
                                        e as int,
                                    )));
                                }
                            }
                            i = next;
                            depth = depth + 1;
                        },
                        None => {
                            i = i + 1;
                        },
                    }
                } else {
                    i = i + 1;
                }
            }
            proof {
                assert(scan_block(s, i as int, depth as int, acc.deep_view()) == acc.deep_view());
            }
        },
        None => {
            proof {
                assert(acc.deep_view() =~= Seq::<Seq<char>>::empty());
            }
            let mut i: usize = 0;
            while i < cs.len()
                invariant
                    i <= s.len(),
                    s == cs@,
                    fallback_scan(s, 0, Seq::<Seq<char>>::empty()) == fallback_scan(
                        s,
                        i as int,
                        acc.deep_view(),
                    ),
                decreases s.len() - i,
            {
                match fallback_at_exec(&cs, i) {
                    Some((q, e, next)) => {
                        let ghost acc0 = acc.deep_view();
                        let name = crate::text::substring_string(&cs, q, e);
                        if !is_reserved_exec(&name) && !crate::text::vec_contains_str(
                            &acc,
                            name.as_str(),
                        ) {
                            acc.push(name);
                            proof {
                                assert(acc.deep_view() =~= acc0.push(s.subrange(
                                    q as int,
                                    e as int,
                                )));
                            }
                        }
                        i = next;
                    },
                    None => {
                        i = i + 1;
                    },
                }
            }
            proof {
                assert(fallback_scan(s, i as int, acc.deep_view()) == acc.deep_view());
            }
        },
    }
    acc
}

} // verus!
