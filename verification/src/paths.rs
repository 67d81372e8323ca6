//! The fixed three-level layout of installed plugin bundles:
//! `{save_dir}/{author_id}/{package_id}/{version}/package.js`, mirrored by
//! a record keyed on `"{author_id}/{package_id}/{version}"`.  This module
//! holds the id and path arithmetic: joining segments, splitting a path on
//! `/`, and reading a plugin package id back out of a `package.js` path.

use vstd::prelude::*;

verus! {

/// A valid layout segment: non-empty and free of `/`.
pub open spec fn valid_segment(s: Seq<char>) -> bool {
    s.len() > 0 && forall|i: int| 0 <= i < s.len() ==> s[i] != '/'
}

/// The separator as a one-character sequence.
pub open spec fn slash() -> Seq<char> {
    seq!['/']
}

/// The bundle file name.
pub open spec fn package_js_name() -> Seq<char> {
    seq!['p', 'a', 'c', 'k', 'a', 'g', 'e', '.', 'j', 's']
}

/// The metadata file name.
pub open spec fn metadata_json_name() -> Seq<char> {
    seq!['m', 'e', 't', 'a', 'd', 'a', 't', 'a', '.', 'j', 's', 'o', 'n']
}

/// `"{author_id}/{package_id}/{version}"`.
pub open spec fn plugin_id_of(a: Seq<char>, p: Seq<char>, v: Seq<char>) -> Seq<char> {
    a + slash() + p + slash() + v
}

/// `"{save_dir}/{author_id}/{package_id}/{version}"`.
pub open spec fn install_dir_of(save: Seq<char>, a: Seq<char>, p: Seq<char>, v: Seq<char>) -> Seq<
    char,
> {
    save + slash() + plugin_id_of(a, p, v)
}

/// The `package.js` path under an install directory.
pub open spec fn package_js_path(dir: Seq<char>) -> Seq<char> {
    dir + slash() + package_js_name()
}

/// The `metadata.json` path under an install directory.
pub open spec fn metadata_json_path(dir: Seq<char>) -> Seq<char> {
    dir + slash() + metadata_json_name()
}

/// Whether `prefix` stands letter for letter at the start of `s`.
pub open spec fn starts_with(s: Seq<char>, prefix: Seq<char>) -> bool {
    prefix.len() <= s.len() && s.subrange(0, prefix.len() as int) == prefix
}

/// The index of the first `/` of `s`, or `-1`.
pub open spec fn first_slash(s: Seq<char>) -> int
    decreases s.len(),
{
    if s.len() == 0 {
        -1
    } else if s[0] == '/' {
        0
    } else {
        let r = first_slash(s.drop_first());
        if r < 0 {
            -1
        } else {
            r + 1
        }
    }
}

/// The `/`-separated segments of `s`, in order.  A text without `/` is one
/// segment; every separator opens a further one.
pub open spec fn split_slash(s: Seq<char>) -> Seq<Seq<char>>
    decreases s.len(),
{
    let k = first_slash(s);
    if k < 0 || k >= s.len() {
        seq![s]
    } else {
        seq![s.subrange(0, k)] + split_slash(s.subrange(k + 1, s.len() as int))
    }
}

/// A split has at least one segment.
pub proof fn lemma_split_nonempty(s: Seq<char>)
    ensures
        split_slash(s).len() >= 1,
{
}

/// The plugin package id a `package.js` path under `save` spells, if any:
/// the path must read `save`, `/`, then exactly four `/`-separated
/// segments, the first three non-empty and the last `package.js`.
pub open spec fn id_from_path(save: Seq<char>, path: Seq<char>) -> Option<Seq<char>> {
    if starts_with(path, save + slash()) {
        let segs = split_slash(path.skip(save.len() + 1 as int));
        if segs.len() == 4 && segs[3] == package_js_name() && segs[0].len() > 0 && segs[1].len()
            > 0 && segs[2].len() > 0 {
            Some(plugin_id_of(segs[0], segs[1], segs[2]))
        } else {
            None
        }
    } else {
        None
    }
}

/// `first_slash` is where the first `/` stands.
pub proof fn lemma_first_slash_spec(s: Seq<char>)
    ensures
        first_slash(s) < 0 ==> forall|i: int| 0 <= i < s.len() ==> s[i] != '/',
        first_slash(s) >= 0 ==> {
            &&& first_slash(s) < s.len()
            &&& s[first_slash(s)] == '/'
            &&& forall|i: int| 0 <= i < first_slash(s) ==> s[i] != '/'
        },
    decreases s.len(),
{
    if s.len() > 0 && s[0] != '/' {
        lemma_first_slash_spec(s.drop_first());
        assert forall|i: int| 0 <= i < s.len() && first_slash(s) < 0 implies s[i] != '/' by {
            if i > 0 {
                assert(s.drop_first()[i - 1] == s[i]);
            }
        }
        if first_slash(s) >= 0 {
            assert(s.drop_first()[first_slash(s) - 1] == s[first_slash(s)]);
            assert forall|i: int| 0 <= i < first_slash(s) implies s[i] != '/' by {
                if i > 0 {
                    assert(s.drop_first()[i - 1] == s[i]);
                }
            }
        }
    }
}

/// Splitting a text that begins with a `/`-free segment and a separator
/// yields that segment and then the split of the rest.
pub proof fn lemma_split_prepend_segment(a: Seq<char>, rest: Seq<char>)
    requires
        forall|i: int| 0 <= i < a.len() ==> a[i] != '/',
    ensures
        split_slash(a + slash() + rest) == seq![a] + split_slash(rest),
{
    let s = a + slash() + rest;
    assert(first_slash(s) == a.len()) by {
        lemma_first_slash_at(s, a.len() as int);
    }
    assert(s.subrange(0, a.len() as int) =~= a);
    assert(s.subrange(a.len() + 1 as int, s.len() as int) =~= rest);
    assert(split_slash(s) == seq![a] + split_slash(rest));
}

/// If `s[k]` is the first `/` of `s`, `first_slash` finds exactly `k`.
pub proof fn lemma_first_slash_at(s: Seq<char>, k: int)
    requires
        0 <= k < s.len(),
        s[k] == '/',
        forall|i: int| 0 <= i < k ==> s[i] != '/',
    ensures
        first_slash(s) == k,
    decreases k,
{
    if k > 0 {
        assert forall|i: int| 0 <= i < k - 1 implies s.drop_first()[i] != '/' by {
            assert(s.drop_first()[i] == s[i + 1]);
        }
        assert(s.drop_first()[k - 1] == s[k]);
        lemma_first_slash_at(s.drop_first(), k - 1);
    }
}

/// A `/`-free text splits into itself alone.
pub proof fn lemma_split_single(s: Seq<char>)
    requires
        forall|i: int| 0 <= i < s.len() ==> s[i] != '/',
    ensures
        split_slash(s) == seq![s],
{
    lemma_first_slash_spec(s);
    if first_slash(s) >= 0 {
        assert(s[first_slash(s)] == '/');
    }
}

/// The id of the `package.js` path of an install directory built from
/// valid segments is exactly the plugin package id of those segments: the
/// layout round-trips.
pub proof fn lemma_id_from_install_path(save: Seq<char>, a: Seq<char>, p: Seq<char>, v: Seq<char>)
    requires
        valid_segment(a),
        valid_segment(p),
        valid_segment(v),
    ensures
        id_from_path(save, package_js_path(install_dir_of(save, a, p, v))) == Some(
            plugin_id_of(a, p, v),
        ),
{
    let path = package_js_path(install_dir_of(save, a, p, v));
    let tail = a + slash() + p + slash() + v + slash() + package_js_name();
    assert(path =~= save + slash() + tail);
    assert(starts_with(path, save + slash())) by {
        assert(path.subrange(0, save.len() + 1 as int) =~= save + slash());
    }
    assert(path.skip(save.len() + 1 as int) =~= tail);
    let rest1 = p + slash() + v + slash() + package_js_name();
    let rest2 = v + slash() + package_js_name();
    lemma_split_prepend_segment(a, rest1);
    assert(tail =~= a + slash() + rest1);
    lemma_split_prepend_segment(p, rest2);
    assert(rest1 =~= p + slash() + rest2);
    lemma_split_prepend_segment(v, package_js_name());
    lemma_split_single(package_js_name());
    assert(split_slash(tail) =~= seq![a, p, v, package_js_name()]);
}

/// Any `package.js` path that spells the id of valid segments lies under
/// that id's install directory.
pub proof fn lemma_id_path_under_dir(
    save: Seq<char>,
    path: Seq<char>,
    a: Seq<char>,
    p: Seq<char>,
    v: Seq<char>,
)
    requires
        valid_segment(a),
        valid_segment(p),
        valid_segment(v),
        id_from_path(save, path) == Some(plugin_id_of(a, p, v)),
    ensures
        path == package_js_path(install_dir_of(save, a, p, v)),
{
    let segs = split_slash(path.skip(save.len() + 1 as int));
    lemma_split_is_partition(path.skip(save.len() + 1 as int));
    assert(plugin_id_of(segs[0], segs[1], segs[2]) == plugin_id_of(a, p, v));
    lemma_plugin_id_unique(segs[0], segs[1], segs[2], a, p, v);
    assert(path =~= path.subrange(0, save.len() + 1 as int) + path.skip(save.len() + 1 as int));
    assert(path.skip(save.len() + 1 as int) =~= segs[0] + slash() + segs[1] + slash() + segs[2] + slash()
        + segs[3]);
    assert(path =~= package_js_path(install_dir_of(save, a, p, v)));
}

/// Splitting partitions the text: joining the segments with `/` gives the
/// text back, and each segment is `/`-free.  Stated here for a split of
/// exactly four segments, the shape the layout uses.
pub proof fn lemma_split_is_partition(s: Seq<char>)
    requires
        split_slash(s).len() == 4,
    ensures
        s == split_slash(s)[0] + slash() + split_slash(s)[1] + slash() + split_slash(s)[2]
            + slash() + split_slash(s)[3],
        forall|j: int, i: int| 0 <= j < 3 && 0 <= i < split_slash(s)[j].len()
            ==> #[trigger] split_slash(s)[j][i] != '/',
    decreases s.len(),
{
    lemma_first_slash_spec(s);
    let k = first_slash(s);
    if k < 0 {
        assert(split_slash(s).len() == 1);
    } else {
        let rest = s.subrange(k + 1, s.len() as int);
        let tailsegs = split_slash(rest);
        assert(split_slash(s) == seq![s.subrange(0, k)] + tailsegs);
        assert(tailsegs.len() == 3);
        lemma_split_is_partition_three(rest);
        assert(split_slash(s)[0] == s.subrange(0, k));
        assert(split_slash(s)[1] == tailsegs[0]);
        assert(split_slash(s)[2] == tailsegs[1]);
        assert(split_slash(s)[3] == tailsegs[2]);
        assert(s =~= s.subrange(0, k) + slash() + rest);
        assert(s =~= split_slash(s)[0] + slash() + split_slash(s)[1] + slash() + split_slash(
            s,
        )[2] + slash() + split_slash(s)[3]);
    }
}

/// As [`lemma_split_is_partition`], for a split of exactly three segments.
pub proof fn lemma_split_is_partition_three(s: Seq<char>)
    requires
        split_slash(s).len() == 3,
    ensures
        s == split_slash(s)[0] + slash() + split_slash(s)[1] + slash() + split_slash(s)[2],
        forall|j: int, i: int| 0 <= j < 3 && 0 <= i < split_slash(s)[j].len()
            ==> #[trigger] split_slash(s)[j][i] != '/',
    decreases s.len(),
{
    lemma_first_slash_spec(s);
    let k = first_slash(s);
    if k >= 0 {
        let rest = s.subrange(k + 1, s.len() as int);
        let tailsegs = split_slash(rest);
        assert(tailsegs.len() == 2);
        lemma_split_is_partition_two(rest);
        assert(s =~= s.subrange(0, k) + slash() + rest);
        assert(s =~= split_slash(s)[0] + slash() + split_slash(s)[1] + slash() + split_slash(
            s,
        )[2]);
    }
}

/// As [`lemma_split_is_partition`], for a split of exactly two segments.
pub proof fn lemma_split_is_partition_two(s: Seq<char>)
    requires
        split_slash(s).len() == 2,
    ensures
        s == split_slash(s)[0] + slash() + split_slash(s)[1],
        forall|j: int, i: int| 0 <= j < 2 && 0 <= i < split_slash(s)[j].len()
            ==> #[trigger] split_slash(s)[j][i] != '/',
    decreases s.len(),
{
    lemma_first_slash_spec(s);
    let k = first_slash(s);
    if k >= 0 {
        let rest = s.subrange(k + 1, s.len() as int);
        assert(split_slash(rest).len() == 1);
        assert(first_slash(rest) < 0) by {
            lemma_first_slash_spec(rest);
            if first_slash(rest) >= 0 {
                lemma_split_nonempty(rest.subrange(first_slash(rest) + 1, rest.len() as int));
                assert(split_slash(rest).len() >= 2);
            }
        }
        assert(split_slash(rest) == seq![rest]);
        assert(split_slash(s)[1] == rest);
        assert(s =~= s.subrange(0, k) + slash() + rest);
        lemma_first_slash_spec(rest);
    }
}

/// Two spellings of a plugin package id out of valid segments agree
/// segment for segment.
pub proof fn lemma_plugin_id_unique(
    a1: Seq<char>,
    p1: Seq<char>,
    v1: Seq<char>,
    a2: Seq<char>,
    p2: Seq<char>,
    v2: Seq<char>,
)
    requires
        forall|i: int| 0 <= i < a1.len() ==> a1[i] != '/',
        forall|i: int| 0 <= i < p1.len() ==> p1[i] != '/',
        forall|i: int| 0 <= i < v1.len() ==> v1[i] != '/',
        valid_segment(a2),
        valid_segment(p2),
        valid_segment(v2),
        plugin_id_of(a1, p1, v1) == plugin_id_of(a2, p2, v2),
    ensures
        a1 == a2 && p1 == p2 && v1 == v2,
{
    lemma_split_prepend_segment(a1, p1 + slash() + v1);
    lemma_split_prepend_segment(p1, v1);
    lemma_split_single(v1);
    lemma_split_prepend_segment(a2, p2 + slash() + v2);
    lemma_split_prepend_segment(p2, v2);
    lemma_split_single(v2);
    assert(plugin_id_of(a1, p1, v1) =~= a1 + slash() + (p1 + slash() + v1));
    assert(plugin_id_of(a2, p2, v2) =~= a2 + slash() + (p2 + slash() + v2));
    let segs = split_slash(plugin_id_of(a1, p1, v1));
    assert(segs == seq![a1] + (seq![p1] + seq![v1]));
    assert(segs == seq![a2] + (seq![p2] + seq![v2]));
    assert(segs[0] == a1 && segs[0] == a2);
    assert(segs[1] == p1 && segs[1] == p2);
    assert(segs[2] == v1 && segs[2] == v2);
}

/// Whether the text is a valid layout segment.
pub fn valid_segment_exec(s: &str) -> (r: bool)
    ensures
        r == valid_segment(s@),
{
    let cs = crate::text::chars_of(s);
    if cs.len() == 0 {
        return false;
    }
    let mut i: usize = 0;
    while i < cs.len()
        invariant
            i <= cs@.len(),
            cs@ == s@,
            forall|j: int| 0 <= j < i ==> s@[j] != '/',
        decreases cs@.len() - i,
    {
        if cs[i] == '/' {
            return false;
        }
        i = i + 1;
    }
    true
}

/// `"{author_id}/{package_id}/{version}"`.
pub fn make_plugin_id(a: &str, p: &str, v: &str) -> (r: String)
    ensures
        r@ == plugin_id_of(a@, p@, v@),
{
    proof {
        reveal_strlit("/");
        assert("/"@ =~= slash());
    }
    let mut s = String::from_str(a);
    s.append("/");
    s.append(p);
    s.append("/");
    s.append(v);
    s
}

/// `"{save_dir}/{plugin_package_id}"`.
pub fn make_install_dir(save: &str, id: &str) -> (r: String)
    ensures
        r@ == save@ + slash() + id@,
{
    proof {
        reveal_strlit("/");
        assert("/"@ =~= slash());
    }
    let mut s = String::from_str(save);
    s.append("/");
    s.append(id);
    s
}

/// The `package.js` path under an install directory.
pub fn make_package_js_path(dir: &str) -> (r: String)
    ensures
        r@ == package_js_path(dir@),
{
    proof {
        reveal_strlit("/package.js");
        assert("/package.js"@ =~= slash() + package_js_name());
    }
    let mut s = String::from_str(dir);
    s.append("/package.js");
    s
}

/// The `metadata.json` path under an install directory.
pub fn make_metadata_json_path(dir: &str) -> (r: String)
    ensures
        r@ == metadata_json_path(dir@),
{
    proof {
        reveal_strlit("/metadata.json");
        assert("/metadata.json"@ =~= slash() + metadata_json_name());
    }
    let mut s = String::from_str(dir);
    s.append("/metadata.json");
    s
}

/// Whether `prefix` stands at the start of `s`.
pub fn str_starts_with(s: &str, prefix: &str) -> (r: bool)
    ensures
        r == starts_with(s@, prefix@),
{
    let n = s.unicode_len();
    let m = prefix.unicode_len();
    if m > n {
        return false;
    }
    let mut i: usize = 0;
    while i < m
        invariant
            i <= m,
            m == prefix@.len(),
            m <= n == s@.len(),
            forall|j: int| 0 <= j < i ==> s@[j] == prefix@[j],
        decreases m - i,
    {
        if s.get_char(i) != prefix.get_char(i) {
            proof {
                if s@.subrange(0, prefix@.len() as int) == prefix@ {
                    assert(s@.subrange(0, prefix@.len() as int)[i as int] == prefix@[i as int]);
                }
            }
            return false;
        }
        i = i + 1;
    }
    proof {
        assert(s@.subrange(0, prefix@.len() as int) =~= prefix@);
    }
    true
}

/// The `/`-separated segments of the characters of `cs` from `from` on.
pub fn split_slash_exec(cs: &Vec<char>, from: usize) -> (r: Vec<String>)
    requires
        from <= cs@.len(),
    ensures
        r.deep_view() == split_slash(cs@.skip(from as int)),
{
    let n = cs.len();
    let mut segs: Vec<String> = Vec::new();
    let mut cur: usize = from;
    let mut done = false;
    proof {
        assert(segs.deep_view() =~= Seq::<Seq<char>>::empty());
        assert(Seq::<Seq<char>>::empty() + split_slash(cs@.skip(from as int)) =~= split_slash(
            cs@.skip(from as int),
        ));
    }
    while !done
        invariant
            from <= cur,
            n == cs@.len(),
            !done ==> cur <= n,
            !done ==> split_slash(cs@.skip(from as int)) == segs.deep_view() + split_slash(
                cs@.skip(cur as int),
            ),
            done ==> split_slash(cs@.skip(from as int)) == segs.deep_view(),
        decreases n + 1 - cur, (if done {
            0int
        } else {
            1int
        }),
    {
        let ghost rest = cs@.skip(cur as int);
        let mut j: usize = cur;
        while j < n && cs[j] != '/'
            invariant
                cur <= j <= n,
                n == cs@.len(),
                forall|k: int| 0 <= k < j - cur ==> cs@.skip(cur as int)[k] != '/',
            decreases n - j,
        {
            proof {
                assert(cs@.skip(cur as int)[j - cur as int] == cs@[j as int]);
            }
            j = j + 1;
        }
        let seg = crate::text::substring_string(cs, cur, j);
        proof {
            assert(seg@ =~= rest.subrange(0, j - cur as int));
        }
        let ghost acc0 = segs.deep_view();
        if j == n {
            proof {
                lemma_first_slash_spec(rest);
                if first_slash(rest) >= 0 {
                    assert(rest[first_slash(rest)] == '/');
                }
                assert(first_slash(rest) < 0);
                assert(seg@ =~= rest);
                assert(split_slash(rest) == seq![rest]);
            }
            segs.push(seg);
            proof {
                assert(segs.deep_view() =~= acc0.push(rest));
                assert(acc0 + split_slash(rest) =~= acc0.push(rest));
            }
            done = true;
        } else {
            proof {
                assert(cs@.skip(cur as int)[j - cur as int] == cs@[j as int]);
                lemma_first_slash_at(rest, j - cur as int);
                assert(rest.subrange(j - cur + 1 as int, rest.len() as int) =~= cs@.skip(
                    j + 1 as int,
                ));
                assert(split_slash(rest) == seq![rest.subrange(0, j - cur as int)] + split_slash(
                    cs@.skip(j + 1 as int),
                ));
            }
            segs.push(seg);
            proof {
                assert(segs.deep_view() =~= acc0.push(rest.subrange(0, j - cur as int)));
                assert(acc0 + (seq![rest.subrange(0, j - cur as int)] + split_slash(cs@.skip(
                    j + 1 as int,
                ))) =~= segs.deep_view() + split_slash(cs@.skip(j + 1 as int)));
            }
            cur = j + 1;
        }
    }
    segs
}

/// The plugin package id a `package.js` path under `save` spells, if any.
pub fn id_from_path_exec(save: &str, path: &str) -> (r: Option<String>)
    ensures
        match r {
            Some(id) => id_from_path(save@, path@) == Some(id@),
            None => id_from_path(save@, path@) is None,
        },
{
    let mut prefix = String::from_str(save);
    proof {
        reveal_strlit("/");
        assert("/"@ =~= slash());
    }
    prefix.append("/");
    if !str_starts_with(path, prefix.as_str()) {
        return None;
    }
    let pcs = crate::text::chars_of(path);
    let start = prefix.as_str().unicode_len();
    proof {
        assert(start == save@.len() + 1);
        assert(start <= pcs@.len());
    }
    let segs = split_slash_exec(&pcs, start);
    if segs.len() != 4 {
        return None;
    }
    proof {
        reveal_strlit("package.js");
        assert("package.js"@ =~= package_js_name());
        assert(segs.deep_view()[3] == segs@[3]@);
        assert(segs.deep_view()[0] == segs@[0]@);
        assert(segs.deep_view()[1] == segs@[1]@);
        assert(segs.deep_view()[2] == segs@[2]@);
    }
    if !crate::text::str_eq(segs[3].as_str(), "package.js") {
        return None;
    }
    if segs[0].as_str().unicode_len() == 0 || segs[1].as_str().unicode_len() == 0
        || segs[2].as_str().unicode_len() == 0 {
        return None;
    }
    Some(make_plugin_id(segs[0].as_str(), segs[1].as_str(), segs[2].as_str()))
}

} // verus!
