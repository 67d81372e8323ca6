//! A scanner for JSDoc comment blocks inside script text.
//!
//! A block is the text between `/**` and the next `*/`.  Inside a block,
//! every line is cleaned of leading whitespace, leading asterisks and
//! surrounding whitespace; a cleaned line beginning with `@` becomes a tag
//! (name, optional `{type}`, optional parameter name, description), every
//! other non-empty line joins the block's summary.  A block with neither
//! summary nor tags is dropped.

use crate::extract::{is_space, matches_at, skip_spaces};
use vstd::prelude::*;

verus! {

/// One `@tag` line of a block.
#[derive(Debug)]
pub struct JsDocTag {
    pub tag_name: String,
    pub tag_type: String,
    pub param_name: String,
    pub description: String,
}

/// The mathematical value of a [`JsDocTag`].
#[verifier::ext_equal]
pub ghost struct SpecJsDocTag {
    pub tag_name: Seq<char>,
    pub tag_type: Seq<char>,
    pub param_name: Seq<char>,
    pub description: Seq<char>,
}

impl View for JsDocTag {
    type V = SpecJsDocTag;

    open spec fn view(&self) -> SpecJsDocTag {
        SpecJsDocTag {
            tag_name: self.tag_name@,
            tag_type: self.tag_type@,
            param_name: self.param_name@,
            description: self.description@,
        }
    }
}

impl DeepView for JsDocTag {
    type V = SpecJsDocTag;

    open spec fn deep_view(&self) -> SpecJsDocTag {
        self@
    }
}

/// One documentation block: its free-text summary and its tags.
#[derive(Debug)]
pub struct JsDocBlock {
    pub summary: String,
    pub tags: Vec<JsDocTag>,
}

/// The mathematical value of a [`JsDocBlock`].
#[verifier::ext_equal]
pub ghost struct SpecJsDocBlock {
    pub summary: Seq<char>,
    pub tags: Seq<SpecJsDocTag>,
}

impl View for JsDocBlock {
    type V = SpecJsDocBlock;

    open spec fn view(&self) -> SpecJsDocBlock {
        SpecJsDocBlock { summary: self.summary@, tags: self.tags.deep_view() }
    }
}

impl DeepView for JsDocBlock {
    type V = SpecJsDocBlock;

    open spec fn deep_view(&self) -> SpecJsDocBlock {
        self@
    }
}

/// The text without its leading run of `c`.
pub open spec fn strip_leading(s: Seq<char>, c: char) -> Seq<char>
    decreases s.len(),
{
    if s.len() > 0 && s[0] == c {
        strip_leading(s.drop_first(), c)
    } else {
        s
    }
}

/// The text without its trailing run of `c`.
pub open spec fn strip_trailing(s: Seq<char>, c: char) -> Seq<char>
    decreases s.len(),
{
    if s.len() > 0 && s.last() == c {
        strip_trailing(s.drop_last(), c)
    } else {
        s
    }
}

/// The text without its leading whitespace.
pub open spec fn trim_start_ws(s: Seq<char>) -> Seq<char> {
    s.skip(skip_spaces(s, 0))
}

/// The text without its trailing whitespace.
pub open spec fn trim_end_ws(s: Seq<char>) -> Seq<char>
    decreases s.len(),
{
    if s.len() > 0 && is_space(s.last()) {
        trim_end_ws(s.drop_last())
    } else {
        s
    }
}

/// The text without surrounding whitespace.
pub open spec fn trim_ws(s: Seq<char>) -> Seq<char> {
    trim_end_ws(trim_start_ws(s))
}

/// A block line after cleaning: leading whitespace gone, then the leading
/// asterisks, then surrounding whitespace.
pub open spec fn cleaned_line(s: Seq<char>) -> Seq<char> {
    trim_ws(strip_leading(trim_start_ws(s), '*'))
}

/// The index of the first `c` at or behind `i`, or the text's length.
pub open spec fn find_char(s: Seq<char>, c: char, i: int) -> int
    decreases s.len() - i,
{
    if 0 <= i < s.len() {
        if s[i] == c {
            i
        } else {
            find_char(s, c, i + 1)
        }
    } else {
        s.len() as int
    }
}

/// The segments of the text split at `\n`.
pub open spec fn split_newline(s: Seq<char>) -> Seq<Seq<char>>
    decreases s.len(),
{
    let k = find_char(s, '\n', 0);
    if k < 0 || k >= s.len() {
        seq![s]
    } else {
        seq![s.subrange(0, k)] + split_newline(s.subrange(k + 1, s.len() as int))
    }
}

/// A segment without one trailing carriage return.
pub open spec fn strip_cr(s: Seq<char>) -> Seq<char> {
    if s.len() > 0 && s.last() == '\r' {
        s.drop_last()
    } else {
        s
    }
}

/// The lines of a text: the `\n`-separated segments, without a final
/// empty segment, each without one trailing carriage return.
pub open spec fn spec_lines(s: Seq<char>) -> Seq<Seq<char>> {
    let raw = split_newline(s);
    let kept = if raw.len() > 0 && raw.last().len() == 0 {
        raw.drop_last()
    } else {
        raw
    };
    Seq::new(kept.len(), |i: int| strip_cr(kept[i]))
}

/// The end of the whitespace-free token beginning at `i`.
pub open spec fn token_end(s: Seq<char>, i: int) -> int
    decreases s.len() - i,
{
    if 0 <= i < s.len() && !is_space(s[i]) {
        token_end(s, i + 1)
    } else {
        i
    }
}

/// `token_end` lands between `i` and the length.
pub proof fn lemma_token_end_range(s: Seq<char>, i: int)
    requires
        0 <= i <= s.len(),
    ensures
        i <= token_end(s, i) <= s.len(),
    decreases s.len() - i,
{
    if i < s.len() && !is_space(s[i]) {
        lemma_token_end_range(s, i + 1);
    }
}

/// The whitespace-separated tokens of the text from `i` on.
pub open spec fn split_ws_from(s: Seq<char>, i: int) -> Seq<Seq<char>>
    decreases s.len() - i,
{
    let j0 = skip_spaces(s, i);
    let j = if j0 < i {
        i
    } else {
        j0
    };
    if j < 0 || j >= s.len() {
        Seq::empty()
    } else {
        let e = token_end(s, j);
        let step = if j < e <= s.len() {
            e
        } else {
            j + 1
        };
        seq![s.subrange(j, e)] + split_ws_from(s, step)
    }
}

/// The whitespace-separated tokens of the text.
pub open spec fn split_ws(s: Seq<char>) -> Seq<Seq<char>> {
    split_ws_from(s, 0)
}

/// Tokens joined with single spaces, onto an accumulator.
pub open spec fn join_onto(acc: Seq<char>, tokens: Seq<Seq<char>>) -> Seq<char>
    decreases tokens.len(),
{
    if tokens.len() == 0 {
        acc
    } else {
        join_onto(acc + seq![' '] + tokens[0], tokens.drop_first())
    }
}

/// Tokens joined with single spaces.
pub open spec fn join_spaces(tokens: Seq<Seq<char>>) -> Seq<char> {
    if tokens.len() == 0 {
        Seq::empty()
    } else {
        join_onto(tokens[0], tokens.drop_first())
    }
}

/// The tag a cleaned `@` line's tokens spell: the tag name without its
/// leading `@` run; a `{type}` second token, braces stripped, as the type
/// name; then a parameter name unless the next token opens another tag;
/// the remaining tokens, space-joined, as the description.
pub open spec fn spec_tag_of(parts: Seq<Seq<char>>) -> SpecJsDocTag
    recommends
        parts.len() > 0,
{
    let tag_name = strip_leading(parts[0], '@');
    let has_type = parts.len() > 1 && parts[1].len() > 0 && parts[1][0] == '{' && parts[1].last()
        == '}';
    let tag_type = if has_type {
        strip_trailing(strip_leading(parts[1], '{'), '}')
    } else {
        Seq::empty()
    };
    let rest0 = if tag_type.len() == 0 {
        parts.skip(1)
    } else {
        parts.skip(2)
    };
    let has_name = rest0.len() > 0 && !(rest0[0].len() > 0 && rest0[0][0] == '@');
    let param_name = if has_name {
        rest0[0]
    } else {
        Seq::empty()
    };
    let rest = if has_name {
        rest0.skip(1)
    } else {
        rest0
    };
    SpecJsDocTag { tag_name, tag_type, param_name, description: join_spaces(rest) }
}

/// Folds the cleaned lines of a block into the summary text and the tag
/// list.
pub open spec fn process_lines(
    lines: Seq<Seq<char>>,
    i: int,
    summary: Seq<char>,
    tags: Seq<SpecJsDocTag>,
) -> (Seq<char>, Seq<SpecJsDocTag>)
    decreases lines.len() - i,
{
    if i < 0 || i >= lines.len() {
        (summary, tags)
    } else {
        let c = cleaned_line(lines[i]);
        if c.len() == 0 {
            process_lines(lines, i + 1, summary, tags)
        } else if c[0] == '@' {
            process_lines(lines, i + 1, summary, tags.push(spec_tag_of(split_ws(c))))
        } else {
            process_lines(lines, i + 1, summary + c + seq!['\n'], tags)
        }
    }
}

/// The block a raw comment text yields, if it holds anything: the summary
/// trimmed of surrounding whitespace, and the tags in line order.
pub open spec fn spec_process_jsdoc(raw: Seq<char>) -> Option<SpecJsDocBlock> {
    let folded = process_lines(spec_lines(raw), 0, Seq::empty(), Seq::empty());
    if folded.0.len() == 0 && folded.1.len() == 0 {
        None
    } else {
        Some(SpecJsDocBlock { summary: trim_ws(folded.0), tags: folded.1 })
    }
}

/// The opening delimiter.
pub open spec fn open_word() -> Seq<char> {
    seq!['/', '*', '*']
}

/// The closing delimiter.
pub open spec fn close_word() -> Seq<char> {
    seq!['*', '/']
}

/// The first position at or behind `i` where the opening delimiter
/// stands, if any.
pub open spec fn find_open(s: Seq<char>, i: int) -> Option<int>
    decreases s.len() - i,
{
    if i < 0 || i >= s.len() {
        None
    } else if matches_at(s, i, open_word()) {
        Some(i)
    } else {
        find_open(s, i + 1)
    }
}

/// The first position at or behind `i` where the closing delimiter
/// stands, if any.
pub open spec fn find_close(s: Seq<char>, i: int) -> Option<int>
    decreases s.len() - i,
{
    if i < 0 || i >= s.len() {
        None
    } else if matches_at(s, i, close_word()) {
        Some(i)
    } else {
        find_close(s, i + 1)
    }
}

/// Walks the text collecting every delimited block that yields anything.
pub open spec fn scan_jsdoc(s: Seq<char>, i: int, acc: Seq<SpecJsDocBlock>) -> Seq<SpecJsDocBlock>
    decreases s.len() - i,
{
    if i < 0 || i >= s.len() {
        acc
    } else {
        match find_open(s, i) {
            None => acc,
            Some(j) => {
                match find_close(s, j + 3) {
                    None => acc,
                    Some(e) => {
                        let acc2 = match spec_process_jsdoc(s.subrange(j + 3, e)) {
                            Some(b) => acc.push(b),
                            None => acc,
                        };
                        let step = if i < e + 2 <= s.len() {
                            e + 2
                        } else {
                            i + 1
                        };
                        scan_jsdoc(s, step, acc2)
                    },
                }
            },
        }
    }
}

/// The documentation blocks of a script text, in order.
pub open spec fn spec_parse_jsdoc(s: Seq<char>) -> Seq<SpecJsDocBlock> {
    scan_jsdoc(s, 0, Seq::empty())
}

/// The characters `from..to` of a vector, as a vector.
fn subvec(cs: &Vec<char>, from: usize, to: usize) -> (r: Vec<char>)
    requires
        from <= to <= cs@.len(),
    ensures
        r@ == cs@.subrange(from as int, to as int),
{
    let mut r: Vec<char> = Vec::new();
    let mut i: usize = from;
    while i < to
        invariant
            from <= i <= to <= cs@.len(),
            r@ == cs@.subrange(from as int, i as int),
        decreases to - i,
    {
        r.push(cs[i]);
        i = i + 1;
        proof {
            assert(r@ =~= cs@.subrange(from as int, i as int));
        }
    }
    proof {
        assert(r@ =~= cs@.subrange(from as int, to as int));
    }
    r
}

/// Cleans one block line: leading whitespace, then the leading asterisk
/// run, then surrounding whitespace.
fn cleaned_line_exec(line: &str) -> (r: String)
    ensures
        r@ == cleaned_line(line@),
{
    let lcs = crate::text::chars_of(line);
    let a = crate::extract::skip_ws(&lcs, 0);
    proof {
        assert(trim_start_ws(lcs@) == lcs@.skip(a as int));
    }
    let mut b: usize = a;
    while b < lcs.len() && lcs[b] == '*'
        invariant
            a <= b <= lcs@.len(),
            strip_leading(lcs@.skip(a as int), '*') == strip_leading(lcs@.skip(b as int), '*'),
        decreases lcs@.len() - b,
    {
        proof {
            assert(lcs@.skip(b as int)[0] == lcs@[b as int]);
            assert(lcs@.skip(b as int).drop_first() =~= lcs@.skip(b as int + 1));
        }
        b = b + 1;
    }
    proof {
        if b < lcs@.len() {
            assert(lcs@.skip(b as int)[0] == lcs@[b as int]);
        }
        assert(strip_leading(lcs@.skip(b as int), '*') == lcs@.skip(b as int));
    }
    let stars = subvec(&lcs, b, lcs.len());
    proof {
        assert(stars@ =~= lcs@.skip(b as int));
    }
    let c = crate::extract::skip_ws(&stars, 0);
    let x = subvec(&stars, c, stars.len());
    proof {
        assert(x@ =~= stars@.skip(c as int));
        assert(x@ == trim_start_ws(stars@));
    }
    let mut e: usize = x.len();
    proof {
        assert(x@.subrange(0, e as int) =~= x@);
    }
    while e > 0 && crate::extract::is_space_exec(x[e - 1])
        invariant
            e <= x@.len(),
            trim_end_ws(x@) == trim_end_ws(x@.subrange(0, e as int)),
        decreases e,
    {
        proof {
            assert(x@.subrange(0, e as int).last() == x@[e - 1]);
            assert(x@.subrange(0, e as int).drop_last() =~= x@.subrange(0, e - 1));
        }
        e = e - 1;
    }
    proof {
        if e > 0 {
            assert(x@.subrange(0, e as int).last() == x@[e - 1]);
        }
        assert(trim_end_ws(x@.subrange(0, e as int)) == x@.subrange(0, e as int));
    }
    crate::text::substring_string(&x, 0, e)
}

/// Trims surrounding whitespace.
pub fn trim_ws_exec(s: &str) -> (r: String)
    ensures
        r@ == trim_ws(s@),
{
    let cs = crate::text::chars_of(s);
    let a = crate::extract::skip_ws(&cs, 0);
    let x = subvec(&cs, a, cs.len());
    proof {
        assert(x@ =~= cs@.skip(a as int));
        assert(x@ == trim_start_ws(cs@));
    }
    let mut e: usize = x.len();
    proof {
        assert(x@.subrange(0, e as int) =~= x@);
    }
    while e > 0 && crate::extract::is_space_exec(x[e - 1])
        invariant
            e <= x@.len(),
            trim_end_ws(x@) == trim_end_ws(x@.subrange(0, e as int)),
        decreases e,
    {
        proof {
            assert(x@.subrange(0, e as int).last() == x@[e - 1]);
            assert(x@.subrange(0, e as int).drop_last() =~= x@.subrange(0, e - 1));
        }
        e = e - 1;
    }
    proof {
        if e > 0 {
            assert(x@.subrange(0, e as int).last() == x@[e - 1]);
        }
        assert(trim_end_ws(x@.subrange(0, e as int)) == x@.subrange(0, e as int));
    }
    crate::text::substring_string(&x, 0, e)
}

/// `find_char` names the position of the first occurrence.
pub proof fn lemma_find_char_from(s: Seq<char>, c: char, i: int, k: int)
    requires
        0 <= i <= k < s.len(),
        s[k] == c,
        forall|m: int| i <= m < k ==> s[m] != c,
    ensures
        find_char(s, c, i) == k,
    decreases k - i,
{
    if i < k {
        lemma_find_char_from(s, c, i + 1, k);
    }
}

/// With no occurrence behind `i`, `find_char` answers the length.
pub proof fn lemma_find_char_none(s: Seq<char>, c: char, i: int)
    requires
        0 <= i <= s.len(),
        forall|m: int| i <= m < s.len() ==> s[m] != c,
    ensures
        find_char(s, c, i) == s.len(),
    decreases s.len() - i,
{
    if i < s.len() {
        lemma_find_char_none(s, c, i + 1);
    }
}

/// The `\n`-separated segments of the characters from `from` on.
fn split_newline_exec(cs: &Vec<char>, from: usize) -> (r: Vec<String>)
    requires
        from <= cs@.len(),
    ensures
        r.deep_view() == split_newline(cs@.skip(from as int)),
{
    let n = cs.len();
    let mut segs: Vec<String> = Vec::new();
    let mut cur: usize = from;
    let mut done = false;
    proof {
        assert(segs.deep_view() =~= Seq::<Seq<char>>::empty());
        assert(Seq::<Seq<char>>::empty() + split_newline(cs@.skip(from as int)) =~= split_newline(
            cs@.skip(from as int),
        ));
    }
    while !done
        invariant
            from <= cur,
            n == cs@.len(),
            !done ==> cur <= n,
            !done ==> split_newline(cs@.skip(from as int)) == segs.deep_view() + split_newline(
                cs@.skip(cur as int),
            ),
            done ==> split_newline(cs@.skip(from as int)) == segs.deep_view(),
        decreases n + 1 - cur, (if done {
            0int
        } else {
            1int
        }),
    {
        let ghost rest = cs@.skip(cur as int);
        let mut j: usize = cur;
        while j < n && cs[j] != '\n'
            invariant
                cur <= j <= n,
                n == cs@.len(),
                forall|k: int| 0 <= k < j - cur ==> cs@.skip(cur as int)[k] != '\n',
            decreases n - j,
        {
            proof {
                assert(cs@.skip(cur as int)[j - cur as int] == cs@[j as int]);
            }
            j = j + 1;
        }
        let seg = crate::text::substring_string(cs, cur, j);
        proof {
            assert(seg@ =~= rest.subrange(0, j - cur as int));
        }
        let ghost acc0 = segs.deep_view();
        if j == n {
            proof {
                lemma_find_char_none(rest, '\n', 0);
                assert(seg@ =~= rest);
                assert(split_newline(rest) == seq![rest]);
            }
            segs.push(seg);
            proof {
                assert(segs.deep_view() =~= acc0.push(rest));
                assert(acc0 + split_newline(rest) =~= acc0.push(rest));
            }
            done = true;
        } else {
            proof {
                assert(cs@.skip(cur as int)[j - cur as int] == cs@[j as int]);
                lemma_find_char_from(rest, '\n', 0, j - cur as int);
                assert(rest.subrange(j - cur + 1 as int, rest.len() as int) =~= cs@.skip(
                    j + 1 as int,
                ));
                assert(split_newline(rest) == seq![rest.subrange(0, j - cur as int)]
                    + split_newline(cs@.skip(j + 1 as int)));
            }
            segs.push(seg);
            proof {
                assert(segs.deep_view() =~= acc0.push(rest.subrange(0, j - cur as int)));
                assert(acc0 + (seq![rest.subrange(0, j - cur as int)] + split_newline(cs@.skip(
                    j + 1 as int,
                ))) =~= segs.deep_view() + split_newline(cs@.skip(j + 1 as int)));
            }
            cur = j + 1;
        }
    }
    segs
}

/// The lines of a text.
fn lines_exec(cs: &Vec<char>) -> (r: Vec<String>)
    ensures
        r.deep_view() == spec_lines(cs@),
{
    let mut raw = split_newline_exec(cs, 0);
    proof {
        assert(cs@.skip(0) =~= cs@);
    }
    let ghost raw0 = raw.deep_view();
    if raw.len() > 0 && raw[raw.len() - 1].as_str().unicode_len() == 0 {
        proof {
            assert(raw.deep_view()[raw@.len() - 1] == raw@[raw@.len() - 1]@);
        }
        let _ = raw.pop();
        proof {
            assert(raw.deep_view() =~= raw0.drop_last());
        }
    } else {
        proof {
            if raw@.len() > 0 {
                assert(raw.deep_view()[raw@.len() - 1] == raw@[raw@.len() - 1]@);
            }
        }
    }
    let ghost kept = raw.deep_view();
    let mut out: Vec<String> = Vec::new();
    let mut i: usize = 0;
    while i < raw.len()
        invariant
            i <= raw@.len(),
            kept == raw.deep_view(),
            out.deep_view().len() == i,
            forall|j: int| 0 <= j < i ==> out.deep_view()[j] == strip_cr(kept[j]),
        decreases raw@.len() - i,
    {
        proof {
            assert(raw.deep_view()[i as int] == raw@[i as int]@);
        }
        let lcs = crate::text::chars_of(raw[i].as_str());
        let ghost o0 = out.deep_view();
        if lcs.len() > 0 && lcs[lcs.len() - 1] == '\r' {
            out.push(crate::text::substring_string(&lcs, 0, lcs.len() - 1));
            proof {
                assert(kept[i as int].last() == '\r');
                assert(strip_cr(kept[i as int]) == kept[i as int].drop_last());
                assert(out.deep_view().last() =~= kept[i as int].drop_last());
            }
        } else {
            out.push(raw[i].clone());
            proof {
                if kept[i as int].len() > 0 {
                    assert(kept[i as int].last() == kept[i as int][kept[i as int].len() - 1]);
                }
                assert(strip_cr(kept[i as int]) == kept[i as int]);
                assert(out.deep_view().last() == kept[i as int]);
            }
        }
        i = i + 1;
        proof {
            assert forall|j: int| 0 <= j < i implies out.deep_view()[j] == strip_cr(kept[j]) by {
                if j < i - 1 {
                    assert(out.deep_view()[j] == o0[j]);
                } else {
                    assert(out.deep_view()[j] == out.deep_view().last());
                }
            }
        }
    }
    proof {
        assert(out.deep_view() =~= spec_lines(cs@));
    }
    out
}

/// The whitespace-separated tokens of a text.
fn split_ws_exec(s: &str) -> (r: Vec<String>)
    ensures
        r.deep_view() == split_ws(s@),
{
    let cs = crate::text::chars_of(s);
    let n = cs.len();
    let mut parts: Vec<String> = Vec::new();
    let mut cur: usize = 0;
    proof {
        assert(parts.deep_view() =~= Seq::<Seq<char>>::empty());
        assert(Seq::<Seq<char>>::empty() + split_ws_from(cs@, 0) =~= split_ws_from(cs@, 0));
    }
    while cur < n
        invariant
            cur <= n,
            n == cs@.len(),
            cs@ == s@,
            split_ws(s@) == parts.deep_view() + split_ws_from(cs@, cur as int),
        decreases n - cur,
    {
        let j = crate::extract::skip_ws(&cs, cur);
        if j >= n {
            proof {
                assert(split_ws_from(cs@, cur as int) =~= Seq::<Seq<char>>::empty());
                assert(parts.deep_view() + Seq::<Seq<char>>::empty() =~= parts.deep_view());
            }
            return parts;
        }
        let mut e: usize = j;
        while e < n && !crate::extract::is_space_exec(cs[e])
            invariant
                j <= e <= n,
                n == cs@.len(),
                token_end(cs@, j as int) == token_end(cs@, e as int),
            decreases n - e,
        {
            e = e + 1;
        }
        proof {
            crate::extract::lemma_skip_spaces_range(cs@, cur as int);
            assert(!is_space(cs@[j as int]));
            assert(e > j);
            assert(token_end(cs@, e as int) == e);
            assert(split_ws_from(cs@, cur as int) == seq![cs@.subrange(j as int, e as int)]
                + split_ws_from(cs@, e as int));
        }
        let ghost p0 = parts.deep_view();
        parts.push(crate::text::substring_string(&cs, j, e));
        proof {
            assert(parts.deep_view() =~= p0.push(cs@.subrange(j as int, e as int)));
            assert(p0 + (seq![cs@.subrange(j as int, e as int)] + split_ws_from(cs@, e as int))
                =~= parts.deep_view() + split_ws_from(cs@, e as int));
        }
        cur = if e > cur {
            e
        } else {
            cur + 1
        };
    }
    proof {
        assert(split_ws_from(cs@, cur as int) =~= Seq::<Seq<char>>::empty());
        assert(parts.deep_view() + Seq::<Seq<char>>::empty() =~= parts.deep_view());
    }
    parts
}

/// The tokens from `from` on, joined with single spaces.
fn join_tokens(parts: &Vec<String>, from: usize) -> (r: String)
    requires
        from <= parts@.len(),
    ensures
        r@ == join_spaces(parts.deep_view().skip(from as int)),
{
    let ghost pd = parts.deep_view();
    if from >= parts.len() {
        proof {
            assert(pd.skip(from as int).len() == 0);
        }
        return String::new();
    }
    proof {
        assert(pd.skip(from as int)[0] == pd[from as int]);
        assert(pd[from as int] == parts@[from as int]@);
        assert(pd.skip(from as int).drop_first() =~= pd.skip(from as int + 1));
    }
    let mut s = parts[from].clone();
    let mut m: usize = from + 1;
    proof {
        reveal_strlit(" ");
        assert(" "@ =~= seq![' ']);
    }
    while m < parts.len()
        invariant
            from < m <= parts@.len(),
            pd == parts.deep_view(),
            join_spaces(pd.skip(from as int)) == join_onto(s@, pd.skip(m as int)),
        decreases parts@.len() - m,
    {
        proof {
            reveal_strlit(" ");
            assert(" "@ =~= seq![' ']);
            assert(pd.skip(m as int)[0] == pd[m as int]);
            assert(pd[m as int] == parts@[m as int]@);
            assert(pd.skip(m as int).drop_first() =~= pd.skip(m as int + 1));
        }
        s.append(" ");
        s.append(parts[m].as_str());
        m = m + 1;
    }
    proof {
        assert(pd.skip(m as int).len() == 0);
    }
    s
}

/// The text without its leading run of `c`.
fn strip_leading_exec(s: &str, c: char) -> (r: String)
    ensures
        r@ == strip_leading(s@, c),
{
    let cs = crate::text::chars_of(s);
    let mut k: usize = 0;
    proof {
        assert(cs@.skip(0) =~= cs@);
    }
    while k < cs.len() && cs[k] == c
        invariant
            k <= cs@.len(),
            cs@ == s@,
            strip_leading(s@, c) == strip_leading(cs@.skip(k as int), c),
        decreases cs@.len() - k,
    {
        proof {
            assert(cs@.skip(k as int)[0] == cs@[k as int]);
            assert(cs@.skip(k as int).drop_first() =~= cs@.skip(k as int + 1));
        }
        k = k + 1;
    }
    proof {
        if k < cs@.len() {
            assert(cs@.skip(k as int)[0] == cs@[k as int]);
        }
        assert(strip_leading(cs@.skip(k as int), c) == cs@.skip(k as int));
    }
    let r = crate::text::substring_string(&cs, k, cs.len());
    proof {
        assert(r@ =~= cs@.skip(k as int));
    }
    r
}

/// The text without its trailing run of `c`.
fn strip_trailing_exec(s: &str, c: char) -> (r: String)
    ensures
        r@ == strip_trailing(s@, c),
{
    let cs = crate::text::chars_of(s);
    let mut e: usize = cs.len();
    proof {
        assert(cs@.subrange(0, e as int) =~= cs@);
    }
    while e > 0 && cs[e - 1] == c
        invariant
            e <= cs@.len(),
            cs@ == s@,
            strip_trailing(s@, c) == strip_trailing(cs@.subrange(0, e as int), c),
        decreases e,
    {
        proof {
            assert(cs@.subrange(0, e as int).last() == cs@[e - 1]);
            assert(cs@.subrange(0, e as int).drop_last() =~= cs@.subrange(0, e - 1));
        }
        e = e - 1;
    }
    proof {
        if e > 0 {
            assert(cs@.subrange(0, e as int).last() == cs@[e - 1]);
        }
        assert(strip_trailing(cs@.subrange(0, e as int), c) == cs@.subrange(0, e as int));
    }
    crate::text::substring_string(&cs, 0, e)
}

/// The tag a cleaned `@` line's tokens spell.
fn tag_of_exec(parts: &Vec<String>) -> (r: JsDocTag)
    requires
        parts@.len() > 0,
    ensures
        r@ == spec_tag_of(parts.deep_view()),
{
    let ghost pd = parts.deep_view();
    proof {
        assert(pd[0] == parts@[0]@);
    }
    let tag_name = strip_leading_exec(parts[0].as_str(), '@');
    let mut has_type = false;
    if parts.len() > 1 {
        proof {
            assert(pd[1] == parts@[1]@);
        }
        let cs1 = crate::text::chars_of(parts[1].as_str());
        if cs1.len() > 0 && cs1[0] == '{' && cs1[cs1.len() - 1] == '}' {
            has_type = true;
        }
    }
    proof {
        assert(has_type == (pd.len() > 1 && pd[1].len() > 0 && pd[1][0] == '{' && pd[1].last()
            == '}'));
    }
    let tag_type = if has_type {
        strip_trailing_exec(strip_leading_exec(parts[1].as_str(), '{').as_str(), '}')
    } else {
        String::new()
    };
    let base: usize = if tag_type.as_str().unicode_len() == 0 {
        1
    } else {
        2
    };
    let mut has_name = false;
    if parts.len() > base {
        proof {
            assert(pd[base as int] == parts@[base as int]@);
        }
        let cs2 = crate::text::chars_of(parts[base].as_str());
        has_name = !(cs2.len() > 0 && cs2[0] == '@');
    }
    proof {
        let rest0 = if spec_tag_of(pd).tag_type.len() == 0 {
            pd.skip(1)
        } else {
            pd.skip(2)
        };
        assert(rest0 =~= pd.skip(base as int));
        if pd.len() > base {
            assert(pd.skip(base as int)[0] == pd[base as int]);
        }
        assert(has_name == (rest0.len() > 0 && !(rest0[0].len() > 0 && rest0[0][0] == '@')));
    }
    let param_name = if has_name {
        parts[base].clone()
    } else {
        String::new()
    };
    let d: usize = if has_name {
        base + 1
    } else {
        base
    };
    proof {
        if has_name {
            assert(pd.skip(base as int).skip(1) =~= pd.skip(base as int + 1));
        }
        assert(d <= pd.len());
    }
    let description = join_tokens(parts, d);
    JsDocTag { tag_name, tag_type, param_name, description }
}

/// Reads one raw comment text into a block, if it holds anything.
pub fn process_jsdoc_text(raw: &str) -> (r: Option<JsDocBlock>)
    ensures
        match r {
            Some(b) => spec_process_jsdoc(raw@) == Some(b@),
            None => spec_process_jsdoc(raw@) is None,
        },
{
    let rcs = crate::text::chars_of(raw);
    let lines = lines_exec(&rcs);
    let ghost ls = lines.deep_view();
    let mut summary = String::new();
    let mut tags: Vec<JsDocTag> = Vec::new();
    let mut i: usize = 0;
    proof {
        assert(tags.deep_view() =~= Seq::<SpecJsDocTag>::empty());
        reveal_strlit("\n");
        assert("\n"@ =~= seq!['\n']);
    }
    while i < lines.len()
        invariant
            i <= lines@.len(),
            ls == lines.deep_view(),
            process_lines(ls, 0, Seq::empty(), Seq::empty()) == process_lines(
                ls,
                i as int,
                summary@,
                tags.deep_view(),
            ),
        decreases lines@.len() - i,
    {
        proof {
            assert(ls[i as int] == lines@[i as int]@);
        }
        let cleaned = cleaned_line_exec(lines[i].as_str());
        let ccs = crate::text::chars_of(cleaned.as_str());
        if ccs.len() == 0 {
        } else if ccs[0] == '@' {
            proof {
                assert(cleaned_line(ls[i as int])[0] == '@');
            }
            let parts = split_ws_exec(cleaned.as_str());
            proof {
                assert(!is_space('@'));
                assert(skip_spaces(cleaned@, 0) == 0);
                lemma_token_end_range(cleaned@, 1);
                assert(token_end(cleaned@, 0) > 0);
                assert(split_ws(cleaned@).len() > 0);
                assert(parts@.len() > 0);
            }
            let ghost t0 = tags.deep_view();
            let tag = tag_of_exec(&parts);
            tags.push(tag);
            proof {
                assert(tags.deep_view() =~= t0.push(spec_tag_of(split_ws(cleaned_line(
                    ls[i as int],
                )))));
            }
        } else {
            summary.append(cleaned.as_str());
            summary.append("\n");
            proof {
                reveal_strlit("\n");
                assert("\n"@ =~= seq!['\n']);
            }
        }
        i = i + 1;
    }
    let no_summary = summary.as_str().unicode_len() == 0;
    let no_tags = tags.len() == 0;
    if no_summary && no_tags {
        proof {
            assert(tags.deep_view() =~= Seq::<SpecJsDocTag>::empty());
        }
        return None;
    }
    let trimmed = trim_ws_exec(summary.as_str());
    let r = JsDocBlock { summary: trimmed, tags };
    proof {
        assert(spec_process_jsdoc(raw@) == Some(r@));
    }
    Some(r)
}

/// Whether the opening delimiter stands at position `i`.
fn open_at(cs: &Vec<char>, i: usize) -> (r: bool)
    ensures
        r == matches_at(cs@, i as int, open_word()),
{
    proof {
        assert(open_word().len() == 3);
    }
    if i > cs.len() || cs.len() - i < 3 {
        return false;
    }
    let r = cs[i] == '/' && cs[i + 1] == '*' && cs[i + 2] == '*';
    proof {
        if r {
            assert(cs@.subrange(i as int, i as int + 3) =~= open_word());
        } else {
            if cs@.subrange(i as int, i as int + 3) == open_word() {
                assert(forall|k: int| 0 <= k < 3 ==> cs@.subrange(i as int, i as int + 3)[k]
                    == open_word()[k]);
                assert(false);
            }
        }
    }
    r
}

/// Whether the closing delimiter stands at position `i`.
fn close_at(cs: &Vec<char>, i: usize) -> (r: bool)
    ensures
        r == matches_at(cs@, i as int, close_word()),
{
    proof {
        assert(close_word().len() == 2);
    }
    if i > cs.len() || cs.len() - i < 2 {
        return false;
    }
    let r = cs[i] == '*' && cs[i + 1] == '/';
    proof {
        if r {
            assert(cs@.subrange(i as int, i as int + 2) =~= close_word());
        } else {
            if cs@.subrange(i as int, i as int + 2) == close_word() {
                assert(forall|k: int| 0 <= k < 2 ==> cs@.subrange(i as int, i as int + 2)[k]
                    == close_word()[k]);
                assert(false);
            }
        }
    }
    r
}

/// The first opening delimiter at or behind `i`, if any.
fn find_open_exec(cs: &Vec<char>, i: usize) -> (r: Option<usize>)
    requires
        i <= cs@.len(),
    ensures
        match r {
            Some(j) => find_open(cs@, i as int) == Some(j as int) && i <= j && j + 3 <= cs@.len(),
            None => find_open(cs@, i as int) is None,
        },
{
    let mut j: usize = i;
    while j < cs.len()
        invariant
            i <= j,
            j <= cs@.len(),
            find_open(cs@, i as int) == find_open(cs@, j as int),
        decreases cs@.len() - j,
    {
        if open_at(cs, j) {
            proof {
                assert(open_word().len() == 3);
            }
            return Some(j);
        }
        j = j + 1;
    }
    None
}

/// The first closing delimiter at or behind `i`, if any.
fn find_close_exec(cs: &Vec<char>, i: usize) -> (r: Option<usize>)
    requires
        i <= cs@.len(),
    ensures
        match r {
            Some(j) => find_close(cs@, i as int) == Some(j as int) && i <= j && j + 2
                <= cs@.len(),
            None => find_close(cs@, i as int) is None,
        },
{
    let mut j: usize = i;
    while j < cs.len()
        invariant
            i <= j,
            j <= cs@.len(),
            find_close(cs@, i as int) == find_close(cs@, j as int),
        decreases cs@.len() - j,
    {
        if close_at(cs, j) {
            proof {
                assert(close_word().len() == 2);
            }
            return Some(j);
        }
        j = j + 1;
    }
    None
}

/// Reads every documentation block out of a script text, in order.
pub fn parse_jsdoc(code: &str) -> (r: Vec<JsDocBlock>)
    ensures
        r.deep_view() == spec_parse_jsdoc(code@),
{
    let cs = crate::text::chars_of(code);
    let ghost s = cs@;
    let n = cs.len();
    let mut acc: Vec<JsDocBlock> = Vec::new();
    let mut cur: usize = 0;
    proof {
        assert(acc.deep_view() =~= Seq::<SpecJsDocBlock>::empty());
    }
    while cur < n
        invariant
            cur <= n,
            n == s.len(),
            s == cs@,
            s == code@,
            spec_parse_jsdoc(s) == scan_jsdoc(s, cur as int, acc.deep_view()),
        decreases n - cur,
    {
        match find_open_exec(&cs, cur) {
            None => {
                proof {
                    assert(scan_jsdoc(s, cur as int, acc.deep_view()) == acc.deep_view());
                }
                return acc;
            },
            Some(j) => {
                match find_close_exec(&cs, j + 3) {
                    None => {
                        proof {
                            assert(scan_jsdoc(s, cur as int, acc.deep_view()) == acc.deep_view());
                        }
                        return acc;
                    },
                    Some(e) => {
                        let block = crate::text::substring_string(&cs, j + 3, e);
                        let ghost a0 = acc.deep_view();
                        let ghost cur0 = cur as int;
                        match process_jsdoc_text(block.as_str()) {
                            Some(b) => {
                                acc.push(b);
                                proof {
                                    assert(acc.deep_view() =~= a0.push(
                                        spec_process_jsdoc(s.subrange(j + 3 as int, e as int))->Some_0,
                                    ));
                                }
                            },
                            None => {},
                        }
                        proof {
                            assert(cur0 < e + 2 <= s.len());
                            assert(scan_jsdoc(s, cur0, a0) == scan_jsdoc(
                                s,
                                e + 2 as int,
                                acc.deep_view(),
                            ));
                        }
                        cur = e + 2;
                    },
                }
            },
        }
    }
    proof {
        assert(scan_jsdoc(s, cur as int, acc.deep_view()) == acc.deep_view());
    }
    acc
}

} // verus!
