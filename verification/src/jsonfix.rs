//! Repair of almost-JSON text: language models often hand back object
//! literals whose keys are unquoted (`doc_type: "x"`) or carry a stray
//! closing quote (`line_items": [`).  The scanner walks the text once,
//! leaves everything inside string values untouched, and puts quotes
//! around every bare key it finds in front of a colon.  Values such as
//! `true`, `false` and `null` are not keys and stay bare.

use vstd::prelude::*;

verus! {

/// Whether a character has the Unicode `Alphabetic` property; the answer
/// depends on the character alone.
pub uninterp spec fn spec_is_alphabetic(c: char) -> bool;

/// Whether a character is Unicode-alphanumeric; the answer depends on the
/// character alone.
pub uninterp spec fn spec_is_alphanumeric(c: char) -> bool;

/// Relies on `char::is_alphabetic`: the `Alphabetic` property.  On ASCII
/// it holds exactly of the letters.
#[verifier::external_body]
fn is_alphabetic_exec(c: char) -> (r: bool)
    ensures
        r == spec_is_alphabetic(c),
        c <= '\u{7f}' ==> r == (('a' <= c && c <= 'z') || ('A' <= c && c <= 'Z')),
{
    c.is_alphabetic()
}

/// Relies on `char::is_alphanumeric`: `Alphabetic` or a numeric
/// character.  On ASCII it holds exactly of the letters and digits.
#[verifier::external_body]
fn is_alphanumeric_exec(c: char) -> (r: bool)
    ensures
        r == spec_is_alphanumeric(c),
        c <= '\u{7f}' ==> r == (('a' <= c && c <= 'z') || ('A' <= c && c <= 'Z') || ('0' <= c
            && c <= '9')),
{
    c.is_alphanumeric()
}

/// A character that may open a bare key.
pub open spec fn is_key_start(c: char) -> bool {
    spec_is_alphabetic(c) || c == '_'
}

/// A character that may continue a bare key.
pub open spec fn is_key_char(c: char) -> bool {
    spec_is_alphanumeric(c) || c == '_' || c == '-'
}

/// A space or tab, the blanks tolerated between a key and its colon.
pub open spec fn is_blank(c: char) -> bool {
    c == ' ' || c == '\t'
}

/// The end of the key-character run beginning at `i`.
pub open spec fn key_end(s: Seq<char>, i: int) -> int
    decreases s.len() - i,
{
    if 0 <= i < s.len() && is_key_char(s[i]) {
        key_end(s, i + 1)
    } else {
        i
    }
}

/// The end of the blank run beginning at `i`.
pub open spec fn blank_end(s: Seq<char>, i: int) -> int
    decreases s.len() - i,
{
    if 0 <= i < s.len() && is_blank(s[i]) {
        blank_end(s, i + 1)
    } else {
        i
    }
}

/// One walk over the text.  `in_string` and `escape` carry the string
/// state; outside strings, a bare identifier in front of a colon is
/// emitted quoted, an identifier with one stray quote in front of a
/// colon is emitted quoted without the stray, and everything else is
/// copied through.
pub open spec fn fix_scan(
    s: Seq<char>,
    i: int,
    in_string: bool,
    escape: bool,
    acc: Seq<char>,
) -> Seq<char>
    decreases s.len() - i,
{
    if i < 0 || i >= s.len() {
        acc
    } else {
        let c = s[i];
        if escape {
            fix_scan(s, i + 1, in_string, false, acc.push(c))
        } else if c == '\\' && in_string {
            fix_scan(s, i + 1, in_string, true, acc.push(c))
        } else if c == '"' {
            fix_scan(s, i + 1, !in_string, false, acc.push(c))
        } else if in_string {
            fix_scan(s, i + 1, true, false, acc.push(c))
        } else if is_key_start(c) {
            let e = key_end(s, i + 1);
            let w = blank_end(s, e);
            let ident = s.subrange(i, e);
            let blanks = s.subrange(e, w);
            if w < s.len() && s[w] == ':' {
                let step = if i < w <= s.len() {
                    w
                } else {
                    i + 1
                };
                fix_scan(s, step, false, false, acc + quoted(ident) + blanks)
            } else if w < s.len() && s[w] == '"' {
                let w2 = blank_end(s, w + 1);
                let blanks2 = s.subrange(w + 1, w2);
                let step = if i < w2 <= s.len() {
                    w2
                } else {
                    i + 1
                };
                if w2 < s.len() && s[w2] == ':' {
                    fix_scan(s, step, false, false, acc + quoted(ident) + blanks + blanks2)
                } else {
                    fix_scan(
                        s,
                        step,
                        false,
                        false,
                        acc + ident + blanks + seq!['"'] + blanks2,
                    )
                }
            } else {
                let step = if i < w <= s.len() {
                    w
                } else {
                    i + 1
                };
                fix_scan(s, step, false, false, acc + ident + blanks)
            }
        } else {
            fix_scan(s, i + 1, false, false, acc.push(c))
        }
    }
}

/// The identifier inside double quotes.
pub open spec fn quoted(ident: Seq<char>) -> Seq<char> {
    seq!['"'] + ident + seq!['"']
}

/// What the repair answers on a text.
pub open spec fn spec_fix_unquoted_json_keys(s: Seq<char>) -> Seq<char> {
    fix_scan(s, 0, false, false, Seq::empty())
}

/// `key_end` lands between `i` and the length, on a non-key character.
proof fn lemma_key_end_range(s: Seq<char>, i: int)
    requires
        0 <= i <= s.len(),
    ensures
        i <= key_end(s, i) <= s.len(),
        key_end(s, i) < s.len() ==> !is_key_char(s[key_end(s, i)]),
    decreases s.len() - i,
{
    if i < s.len() && is_key_char(s[i]) {
        lemma_key_end_range(s, i + 1);
    }
}

/// `blank_end` lands between `i` and the length, on a non-blank.
proof fn lemma_blank_end_range(s: Seq<char>, i: int)
    requires
        0 <= i <= s.len(),
    ensures
        i <= blank_end(s, i) <= s.len(),
        blank_end(s, i) < s.len() ==> !is_blank(s[blank_end(s, i)]),
    decreases s.len() - i,
{
    if i < s.len() && is_blank(s[i]) {
        lemma_blank_end_range(s, i + 1);
    }
}

/// The end of the key-character run beginning at `i`.
fn key_end_exec(cs: &Vec<char>, i: usize) -> (r: usize)
    requires
        i <= cs@.len(),
    ensures
        r as int == key_end(cs@, i as int),
        i <= r <= cs@.len(),
{
    let mut j: usize = i;
    while j < cs.len() && (is_alphanumeric_exec(cs[j]) || cs[j] == '_' || cs[j] == '-')
        invariant
            i <= j <= cs@.len(),
            key_end(cs@, i as int) == key_end(cs@, j as int),
        decreases cs@.len() - j,
    {
        j = j + 1;
    }
    j
}

/// The end of the blank run beginning at `i`.
fn blank_end_exec(cs: &Vec<char>, i: usize) -> (r: usize)
    requires
        i <= cs@.len(),
    ensures
        r as int == blank_end(cs@, i as int),
        i <= r <= cs@.len(),
{
    let mut j: usize = i;
    while j < cs.len() && (cs[j] == ' ' || cs[j] == '\t')
        invariant
            i <= j <= cs@.len(),
            blank_end(cs@, i as int) == blank_end(cs@, j as int),
        decreases cs@.len() - j,
    {
        j = j + 1;
    }
    j
}

/// Appends the characters `from..to` of `cs` onto `out`.
fn push_range(out: &mut Vec<char>, cs: &Vec<char>, from: usize, to: usize)
    requires
        from <= to <= cs@.len(),
    ensures
        final(out)@ == old(out)@ + cs@.subrange(from as int, to as int),
{
    let mut i: usize = from;
    while i < to
        invariant
            from <= i <= to <= cs@.len(),
            out@ == old(out)@ + cs@.subrange(from as int, i as int),
        decreases to - i,
    {
        out.push(cs[i]);
        i = i + 1;
        proof {
            assert(out@ =~= old(out)@ + cs@.subrange(from as int, i as int));
        }
    }
    proof {
        assert(out@ =~= old(out)@ + cs@.subrange(from as int, to as int));
    }
}

/// Puts quotes around every bare key of an almost-JSON text, leaving
/// string values and bare non-key words untouched.
pub fn fix_unquoted_json_keys(input: &str) -> (r: String)
    ensures
        r@ == spec_fix_unquoted_json_keys(input@),
{
    let cs = crate::text::chars_of(input);
    let ghost s = cs@;
    let n = cs.len();
    let mut out: Vec<char> = Vec::new();
    let mut i: usize = 0;
    let mut in_string = false;
    let mut escape = false;
    proof {
        assert(out@ =~= Seq::<char>::empty());
    }
    while i < n
        invariant
            i <= n,
            n == s.len(),
            s == cs@,
            spec_fix_unquoted_json_keys(s) == fix_scan(
                s,
                i as int,
                in_string,
                escape,
                out@,
            ),
        decreases n - i,
    {
        let c = cs[i];
        if escape {
            out.push(c);
            escape = false;
            i = i + 1;
        } else if c == '\\' && in_string {
            out.push(c);
            escape = true;
            i = i + 1;
        } else if c == '"' {
            out.push(c);
            in_string = !in_string;
            i = i + 1;
        } else if in_string {
            out.push(c);
            i = i + 1;
        } else if is_alphabetic_exec(c) || c == '_' {
            let e = key_end_exec(&cs, i + 1);
            let w = blank_end_exec(&cs, e);
            proof {
                lemma_key_end_range(s, i as int + 1);
                lemma_blank_end_range(s, e as int);
            }
            let ghost acc0 = out@;
            if w < n && cs[w] == ':' {
                out.push('"');
                push_range(&mut out, &cs, i, e);
                out.push('"');
                push_range(&mut out, &cs, e, w);
                proof {
                    assert(out@ =~= acc0 + quoted(s.subrange(i as int, e as int)) + s.subrange(
                        e as int,
                        w as int,
                    ));
                }
                i = w;
            } else if w < n && cs[w] == '"' {
                let w2 = blank_end_exec(&cs, w + 1);
                if w2 < n && cs[w2] == ':' {
                    out.push('"');
                    push_range(&mut out, &cs, i, e);
                    out.push('"');
                    push_range(&mut out, &cs, e, w);
                    push_range(&mut out, &cs, w + 1, w2);
                    proof {
                        assert(out@ =~= acc0 + quoted(s.subrange(i as int, e as int))
                            + s.subrange(e as int, w as int) + s.subrange(
                            w as int + 1,
                            w2 as int,
                        ));
                    }
                } else {
                    push_range(&mut out, &cs, i, e);
                    push_range(&mut out, &cs, e, w);
                    out.push('"');
                    push_range(&mut out, &cs, w + 1, w2);
                    proof {
                        assert(out@ =~= acc0 + s.subrange(i as int, e as int) + s.subrange(
                            e as int,
                            w as int,
                        ) + seq!['"'] + s.subrange(w as int + 1, w2 as int));
                    }
                }
                i = w2;
            } else {
                push_range(&mut out, &cs, i, e);
                push_range(&mut out, &cs, e, w);
                proof {
                    assert(out@ =~= acc0 + s.subrange(i as int, e as int) + s.subrange(
                        e as int,
                        w as int,
                    ));
                }
                i = w;
            }
        } else {
            out.push(c);
            i = i + 1;
        }
    }
    proof {
        assert(fix_scan(s, i as int, in_string, escape, out@) == out@);
    }
    crate::text::string_from_chars(&out)
}

} // verus!
