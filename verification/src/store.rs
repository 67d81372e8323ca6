//! The external plugin store: the install/uninstall/scan lifecycle over
//! the mirrored pair of states the bridge keeps — the on-disk bundle
//! layout and the database rows keyed by plugin package id.
//!
//! The store holds both states as plain values: a flat list of files (the
//! directory tree is implicit in the `/`-separated paths) and a list of
//! rows.  The surrounding process performs the same steps against the real
//! filesystem and database; everything this module decides — which paths
//! are written, when an install is refused, what a scan reports — is
//! verified here.

use crate::errors::{SpecWorkflowError, WorkflowError};
use crate::paths::{
    id_from_path, install_dir_of, metadata_json_path, package_js_path, plugin_id_of, slash,
    split_slash, starts_with, valid_segment,
};
use vstd::prelude::*;

verus! {

/// One database row of an installed external plugin.
#[derive(Debug)]
pub struct PluginRow {
    /// `"{author_id}/{package_id}/{version}"`.
    pub plugin_package_id: String,
    /// `"{save_dir}/{plugin_package_id}"`.
    pub install_dir: String,
    /// Set by reconciliation when the files behind the row are gone.
    pub missing: bool,
}

/// The mathematical value of a [`PluginRow`].
#[verifier::ext_equal]
pub ghost struct SpecPluginRow {
    pub plugin_package_id: Seq<char>,
    pub install_dir: Seq<char>,
    pub missing: bool,
}

impl View for PluginRow {
    type V = SpecPluginRow;

    open spec fn view(&self) -> SpecPluginRow {
        SpecPluginRow {
            plugin_package_id: self.plugin_package_id@,
            install_dir: self.install_dir@,
            missing: self.missing,
        }
    }
}

impl DeepView for PluginRow {
    type V = SpecPluginRow;

    open spec fn deep_view(&self) -> SpecPluginRow {
        self@
    }
}

/// One stored file: a full path and its text.
#[derive(Debug)]
pub struct StoredFile {
    pub path: String,
    pub content: String,
}

/// The mathematical value of a [`StoredFile`].
#[verifier::ext_equal]
pub ghost struct SpecStoredFile {
    pub path: Seq<char>,
    pub content: Seq<char>,
}

impl View for StoredFile {
    type V = SpecStoredFile;

    open spec fn view(&self) -> SpecStoredFile {
        SpecStoredFile { path: self.path@, content: self.content@ }
    }
}

impl DeepView for StoredFile {
    type V = SpecStoredFile;

    open spec fn deep_view(&self) -> SpecStoredFile {
        self@
    }
}

/// The store's state: the base directory, the files under it, and the
/// database rows.
#[derive(Debug)]
pub struct ExtPluginStore {
    pub save_dir: String,
    pub files: Vec<StoredFile>,
    pub rows: Vec<PluginRow>,
}

/// The mathematical value of an [`ExtPluginStore`].
#[verifier::ext_equal]
pub ghost struct SpecStore {
    pub save_dir: Seq<char>,
    pub files: Seq<SpecStoredFile>,
    pub rows: Seq<SpecPluginRow>,
}

impl View for ExtPluginStore {
    type V = SpecStore;

    open spec fn view(&self) -> SpecStore {
        SpecStore {
            save_dir: self.save_dir@,
            files: self.files.deep_view(),
            rows: self.rows.deep_view(),
        }
    }
}

/// A plugin package id of the right shape: exactly three non-empty
/// `/`-separated segments.
pub open spec fn valid_plugin_id(id: Seq<char>) -> bool {
    let segs = split_slash(id);
    segs.len() == 3 && segs[0].len() > 0 && segs[1].len() > 0 && segs[2].len() > 0
}

/// Whether some row carries the given plugin package id.
pub open spec fn has_row(rows: Seq<SpecPluginRow>, id: Seq<char>) -> bool {
    exists|i: int| 0 <= i < rows.len() && (#[trigger] rows[i]).plugin_package_id == id
}

/// The first row carrying the given id, if any.
pub open spec fn row_for(rows: Seq<SpecPluginRow>, id: Seq<char>) -> Option<SpecPluginRow>
    decreases rows.len(),
{
    if rows.len() == 0 {
        None
    } else if rows[0].plugin_package_id == id {
        Some(rows[0])
    } else {
        row_for(rows.drop_first(), id)
    }
}

/// Writes a file: replaces the first file of the same path, or appends.
pub open spec fn set_file(
    files: Seq<SpecStoredFile>,
    path: Seq<char>,
    content: Seq<char>,
) -> Seq<SpecStoredFile>
    decreases files.len(),
{
    if files.len() == 0 {
        seq![SpecStoredFile { path, content }]
    } else if files[0].path == path {
        seq![SpecStoredFile { path, content }] + files.drop_first()
    } else {
        seq![files[0]] + set_file(files.drop_first(), path, content)
    }
}

/// Removes every file whose path begins with `prefix`.
pub open spec fn remove_under(files: Seq<SpecStoredFile>, prefix: Seq<char>) -> Seq<
    SpecStoredFile,
>
    decreases files.len(),
{
    if files.len() == 0 {
        files
    } else if starts_with(files[0].path, prefix) {
        remove_under(files.drop_first(), prefix)
    } else {
        seq![files[0]] + remove_under(files.drop_first(), prefix)
    }
}

/// Removes every row carrying the given id.
pub open spec fn remove_row(rows: Seq<SpecPluginRow>, id: Seq<char>) -> Seq<SpecPluginRow>
    decreases rows.len(),
{
    if rows.len() == 0 {
        rows
    } else if rows[0].plugin_package_id == id {
        remove_row(rows.drop_first(), id)
    } else {
        seq![rows[0]] + remove_row(rows.drop_first(), id)
    }
}

/// The store state after a successful install: the bundle (and the
/// metadata, when given) written under the id's install directory, and one
/// new row.
pub open spec fn spec_install(
    st: SpecStore,
    a: Seq<char>,
    p: Seq<char>,
    v: Seq<char>,
    js: Seq<char>,
    meta: Option<Seq<char>>,
) -> SpecStore {
    let dir = install_dir_of(st.save_dir, a, p, v);
    let f1 = set_file(st.files, package_js_path(dir), js);
    let f2 = match meta {
        Some(m) => set_file(f1, metadata_json_path(dir), m),
        None => f1,
    };
    let row = SpecPluginRow {
        plugin_package_id: plugin_id_of(a, p, v),
        install_dir: dir,
        missing: false,
    };
    SpecStore { save_dir: st.save_dir, files: f2, rows: st.rows.push(row) }
}

/// The store state after a successful uninstall: every file under the
/// row's install directory gone, then the row gone.
pub open spec fn spec_uninstall(st: SpecStore, id: Seq<char>) -> SpecStore {
    match row_for(st.rows, id) {
        Some(row) => SpecStore {
            save_dir: st.save_dir,
            files: remove_under(st.files, row.install_dir + slash()),
            rows: remove_row(st.rows, id),
        },
        None => st,
    }
}

/// The plugin package ids a scan of the files reports, in file order: one
/// for every stored `package.js` in the three-level layout.
pub open spec fn scan_ids(save: Seq<char>, files: Seq<SpecStoredFile>) -> Seq<Seq<char>>
    decreases files.len(),
{
    if files.len() == 0 {
        Seq::empty()
    } else {
        match id_from_path(save, files[0].path) {
            Some(id) => seq![id] + scan_ids(save, files.drop_first()),
            None => scan_ids(save, files.drop_first()),
        }
    }
}

/// The store's well-formedness: row ids and file paths are unique, and
/// every row's install directory is the save directory plus its own
/// well-shaped id.
pub open spec fn store_wf(st: SpecStore) -> bool {
    &&& forall|i: int, j: int|
        0 <= i < j < st.rows.len() ==> (#[trigger] st.rows[i]).plugin_package_id != (
        #[trigger] st.rows[j]).plugin_package_id
    &&& forall|i: int, j: int|
        0 <= i < j < st.files.len() ==> (#[trigger] st.files[i]).path != (
        #[trigger] st.files[j]).path
    &&& forall|i: int|
        0 <= i < st.rows.len() ==> (#[trigger] st.rows[i]).install_dir == st.save_dir + slash()
            + st.rows[i].plugin_package_id && valid_plugin_id(st.rows[i].plugin_package_id)
}

/// Whether some file carries the given path.
pub open spec fn has_path(files: Seq<SpecStoredFile>, q: Seq<char>) -> bool {
    exists|i: int| 0 <= i < files.len() && (#[trigger] files[i]).path == q
}

/// Writing a path no file carries appends the file.
pub proof fn lemma_set_file_no_match(files: Seq<SpecStoredFile>, path: Seq<char>, content: Seq<char>)
    requires
        forall|i: int| 0 <= i < files.len() ==> (#[trigger] files[i]).path != path,
    ensures
        set_file(files, path, content) == files.push(SpecStoredFile { path, content }),
    decreases files.len(),
{
    let nf = SpecStoredFile { path, content };
    if files.len() == 0 {
        assert(seq![nf] =~= files.push(nf));
    } else {
        assert(forall|i: int| 0 <= i < files.drop_first().len() ==> (
        #[trigger] files.drop_first()[i]).path != path);
        lemma_set_file_no_match(files.drop_first(), path, content);
        assert(seq![files[0]] + files.drop_first().push(nf) =~= files.push(nf));
    }
}

/// Writing a path whose first carrier stands at `k` replaces that file.
pub proof fn lemma_set_file_match(
    files: Seq<SpecStoredFile>,
    path: Seq<char>,
    content: Seq<char>,
    k: int,
)
    requires
        0 <= k < files.len(),
        files[k].path == path,
        forall|j: int| 0 <= j < k ==> (#[trigger] files[j]).path != path,
    ensures
        set_file(files, path, content) == files.update(k, SpecStoredFile { path, content }),
    decreases k,
{
    let nf = SpecStoredFile { path, content };
    if k == 0 {
        assert(seq![nf] + files.drop_first() =~= files.update(0, nf));
    } else {
        assert(files.drop_first()[k - 1].path == path);
        assert(forall|j: int| 0 <= j < k - 1 ==> (#[trigger] files.drop_first()[j]).path != path);
        lemma_set_file_match(files.drop_first(), path, content, k - 1);
        assert(seq![files[0]] + files.drop_first().update(k - 1, nf) =~= files.update(k, nf));
    }
}

/// What writing a file does to the paths: the written path is present, and
/// every other presence is untouched; uniqueness of paths is kept.
pub proof fn lemma_set_file_props(files: Seq<SpecStoredFile>, path: Seq<char>, content: Seq<char>)
    ensures
        forall|q: Seq<char>| #[trigger]
            has_path(set_file(files, path, content), q) <==> (q == path || has_path(files, q)),
        (forall|i: int, j: int|
            0 <= i < j < files.len() ==> (#[trigger] files[i]).path != (
            #[trigger] files[j]).path) ==> (forall|i: int, j: int|
            0 <= i < j < set_file(files, path, content).len() ==> (#[trigger] set_file(
                files,
                path,
                content,
            )[i]).path != (#[trigger] set_file(files, path, content)[j]).path),
    decreases files.len(),
{
    let r = set_file(files, path, content);
    let nf = SpecStoredFile { path, content };
    if files.len() == 0 {
        assert(r[0] == nf);
        assert forall|q: Seq<char>| #[trigger] has_path(r, q) <==> (q == path || has_path(
            files,
            q,
        )) by {
            if q == path {
                assert(r[0].path == q);
            }
        }
    } else if files[0].path == path {
        assert forall|q: Seq<char>| #[trigger] has_path(r, q) implies (q == path || has_path(
            files,
            q,
        )) by {
            let i = choose|i: int| 0 <= i < r.len() && (#[trigger] r[i]).path == q;
            if i > 0 {
                assert(files[i].path == q);
            }
        }
        assert forall|q: Seq<char>| (q == path || has_path(files, q)) implies #[trigger] has_path(
            r,
            q,
        ) by {
            if q == path {
                assert(r[0].path == q);
            } else {
                let i = choose|i: int| 0 <= i < files.len() && (#[trigger] files[i]).path == q;
                assert(r[i] == files[i]);
            }
        }
    } else {
        lemma_set_file_props(files.drop_first(), path, content);
        let rr = set_file(files.drop_first(), path, content);
        assert(r == seq![files[0]] + rr);
        assert forall|q: Seq<char>| #[trigger] has_path(r, q) implies (q == path || has_path(
            files,
            q,
        )) by {
            let i = choose|i: int| 0 <= i < r.len() && (#[trigger] r[i]).path == q;
            if i == 0 {
                assert(files[0].path == q);
            } else {
                assert(rr[i - 1].path == q);
                assert(has_path(rr, q));
                if q != path {
                    let j = choose|j: int|
                        0 <= j < files.drop_first().len() && (#[trigger] files.drop_first()[
                        j]).path == q;
                    assert(files[j + 1].path == q);
                }
            }
        }
        assert forall|q: Seq<char>| (q == path || has_path(files, q)) implies #[trigger] has_path(
            r,
            q,
        ) by {
            if q == path {
                assert(has_path(rr, q));
                let i = choose|i: int| 0 <= i < rr.len() && (#[trigger] rr[i]).path == q;
                assert(r[i + 1].path == q);
            } else {
                let i = choose|i: int| 0 <= i < files.len() && (#[trigger] files[i]).path == q;
                if i == 0 {
                    assert(r[0].path == q);
                } else {
                    assert(files.drop_first()[i - 1].path == q);
                    assert(has_path(rr, q));
                    let j = choose|j: int| 0 <= j < rr.len() && (#[trigger] rr[j]).path == q;
                    assert(r[j + 1].path == q);
                }
            }
        }
        if forall|i: int, j: int|
            0 <= i < j < files.len() ==> (#[trigger] files[i]).path != (
            #[trigger] files[j]).path {
            assert forall|i: int, j: int|
                0 <= i < j < files.drop_first().len() implies (
            #[trigger] files.drop_first()[i]).path != (#[trigger] files.drop_first()[j]).path by {
                assert(files.drop_first()[i] == files[i + 1]);
                assert(files.drop_first()[j] == files[j + 1]);
            }
            assert forall|i: int, j: int| 0 <= i < j < r.len() implies (#[trigger] r[i]).path != (
            #[trigger] r[j]).path by {
                if i == 0 {
                    assert(r[j] == rr[j - 1]);
                    assert(has_path(rr, rr[j - 1].path));
                    if r[0].path == rr[j - 1].path {
                        assert(rr[j - 1].path == path || has_path(
                            files.drop_first(),
                            rr[j - 1].path,
                        ));
                        if has_path(files.drop_first(), r[0].path) {
                            let m = choose|m: int|
                                0 <= m < files.drop_first().len() && (
                                #[trigger] files.drop_first()[m]).path == r[0].path;
                            assert(files[m + 1].path == files[0].path);
                        }
                    }
                } else {
                    assert(r[i] == rr[i - 1] && r[j] == rr[j - 1]);
                }
            }
        }
    }
}

/// What removing a file prefix leaves: exactly the files whose paths do
/// not begin with the prefix, each one a file of the input, uniqueness of
/// paths kept.
pub proof fn lemma_remove_under_props(files: Seq<SpecStoredFile>, prefix: Seq<char>)
    ensures
        forall|j: int|
            0 <= j < remove_under(files, prefix).len() ==> files.contains(
                #[trigger] remove_under(files, prefix)[j],
            ) && !starts_with(remove_under(files, prefix)[j].path, prefix),
        forall|q: Seq<char>| #[trigger]
            has_path(remove_under(files, prefix), q) <==> (has_path(files, q) && !starts_with(
                q,
                prefix,
            )),
        (forall|i: int, j: int|
            0 <= i < j < files.len() ==> (#[trigger] files[i]).path != (
            #[trigger] files[j]).path) ==> (forall|i: int, j: int|
            0 <= i < j < remove_under(files, prefix).len() ==> (#[trigger] remove_under(
                files,
                prefix,
            )[i]).path != (#[trigger] remove_under(files, prefix)[j]).path),
    decreases files.len(),
{
    let r = remove_under(files, prefix);
    if files.len() == 0 {
    } else {
        lemma_remove_under_props(files.drop_first(), prefix);
        let rr = remove_under(files.drop_first(), prefix);
        assert forall|j: int|
            0 <= j < files.drop_first().len() implies files.contains(
            #[trigger] files.drop_first()[j]) by {
            assert(files.drop_first()[j] == files[j + 1]);
        }
        if starts_with(files[0].path, prefix) {
            assert forall|q: Seq<char>| #[trigger] has_path(r, q) implies (has_path(files, q)
                && !starts_with(q, prefix)) by {
                let i = choose|i: int| 0 <= i < rr.len() && (#[trigger] rr[i]).path == q;
                assert(has_path(files.drop_first(), q));
                let m = choose|m: int|
                    0 <= m < files.drop_first().len() && (#[trigger] files.drop_first()[m]).path
                        == q;
                assert(files[m + 1].path == q);
            }
            assert forall|q: Seq<char>| (has_path(files, q) && !starts_with(q, prefix)) implies
                #[trigger] has_path(r, q) by {
                let i = choose|i: int| 0 <= i < files.len() && (#[trigger] files[i]).path == q;
                assert(i != 0);
                assert(files.drop_first()[i - 1].path == q);
            }
        } else {
            assert(r == seq![files[0]] + rr);
            assert forall|q: Seq<char>| #[trigger] has_path(r, q) implies (has_path(files, q)
                && !starts_with(q, prefix)) by {
                let i = choose|i: int| 0 <= i < r.len() && (#[trigger] r[i]).path == q;
                if i > 0 {
                    assert(rr[i - 1].path == q);
                    assert(has_path(rr, q));
                    let m = choose|m: int|
                        0 <= m < files.drop_first().len() && (#[trigger] files.drop_first()[
                        m]).path == q;
                    assert(files[m + 1].path == q);
                }
            }
            assert forall|q: Seq<char>| (has_path(files, q) && !starts_with(q, prefix)) implies
                #[trigger] has_path(r, q) by {
                let i = choose|i: int| 0 <= i < files.len() && (#[trigger] files[i]).path == q;
                if i > 0 {
                    assert(files.drop_first()[i - 1].path == q);
                    assert(has_path(rr, q));
                    let j = choose|j: int| 0 <= j < rr.len() && (#[trigger] rr[j]).path == q;
                    assert(r[j + 1].path == q);
                } else {
                    assert(r[0].path == q);
                }
            }
            if forall|i: int, j: int|
                0 <= i < j < files.len() ==> (#[trigger] files[i]).path != (
                #[trigger] files[j]).path {
                assert forall|i: int, j: int|
                    0 <= i < j < files.drop_first().len() implies (
                #[trigger] files.drop_first()[i]).path != (
                #[trigger] files.drop_first()[j]).path by {
                    assert(files.drop_first()[i] == files[i + 1]);
                    assert(files.drop_first()[j] == files[j + 1]);
                }
                assert forall|i: int, j: int| 0 <= i < j < r.len() implies (
                #[trigger] r[i]).path != (#[trigger] r[j]).path by {
                    if i == 0 {
                        assert(r[j] == rr[j - 1]);
                        assert(has_path(rr, rr[j - 1].path));
                        if r[0].path == rr[j - 1].path {
                            let m = choose|m: int|
                                0 <= m < files.drop_first().len() && (
                                #[trigger] files.drop_first()[m]).path == r[0].path;
                            assert(files[m + 1].path == files[0].path);
                        }
                    } else {
                        assert(r[i] == rr[i - 1] && r[j] == rr[j - 1]);
                    }
                }
            }
        }
    }
}

/// What removing a row id leaves: exactly the rows of other ids, each one
/// a row of the input, uniqueness of ids kept.
pub proof fn lemma_remove_row_props(rows: Seq<SpecPluginRow>, id: Seq<char>)
    ensures
        forall|j: int|
            0 <= j < remove_row(rows, id).len() ==> rows.contains(
                #[trigger] remove_row(rows, id)[j],
            ) && remove_row(rows, id)[j].plugin_package_id != id,
        forall|q: Seq<char>| #[trigger]
            has_row(remove_row(rows, id), q) <==> (has_row(rows, q) && q != id),
        (forall|i: int, j: int|
            0 <= i < j < rows.len() ==> (#[trigger] rows[i]).plugin_package_id != (
            #[trigger] rows[j]).plugin_package_id) ==> (forall|i: int, j: int|
            0 <= i < j < remove_row(rows, id).len() ==> (#[trigger] remove_row(
                rows,
                id,
            )[i]).plugin_package_id != (#[trigger] remove_row(rows, id)[j]).plugin_package_id),
    decreases rows.len(),
{
    let r = remove_row(rows, id);
    if rows.len() == 0 {
    } else {
        lemma_remove_row_props(rows.drop_first(), id);
        let rr = remove_row(rows.drop_first(), id);
        assert forall|j: int|
            0 <= j < rows.drop_first().len() implies rows.contains(
            #[trigger] rows.drop_first()[j]) by {
            assert(rows.drop_first()[j] == rows[j + 1]);
        }
        if rows[0].plugin_package_id == id {
            assert forall|q: Seq<char>| #[trigger] has_row(r, q) implies (has_row(rows, q) && q
                != id) by {
                let i = choose|i: int| 0 <= i < rr.len() && (#[trigger] rr[i]).plugin_package_id
                    == q;
                assert(has_row(rows.drop_first(), q));
                let m = choose|m: int|
                    0 <= m < rows.drop_first().len() && (
                    #[trigger] rows.drop_first()[m]).plugin_package_id == q;
                assert(rows[m + 1].plugin_package_id == q);
            }
            assert forall|q: Seq<char>| (has_row(rows, q) && q != id) implies #[trigger] has_row(
                r,
                q,
            ) by {
                let i = choose|i: int| 0 <= i < rows.len() && (#[trigger] rows[i]).plugin_package_id
                    == q;
                assert(i != 0);
                assert(rows.drop_first()[i - 1].plugin_package_id == q);
            }
        } else {
            assert(r == seq![rows[0]] + rr);
            assert forall|q: Seq<char>| #[trigger] has_row(r, q) implies (has_row(rows, q) && q
                != id) by {
                let i = choose|i: int| 0 <= i < r.len() && (#[trigger] r[i]).plugin_package_id
                    == q;
                if i > 0 {
                    assert(rr[i - 1].plugin_package_id == q);
                    assert(has_row(rr, q));
                    let m = choose|m: int|
                        0 <= m < rows.drop_first().len() && (
                        #[trigger] rows.drop_first()[m]).plugin_package_id == q;
                    assert(rows[m + 1].plugin_package_id == q);
                }
            }
            assert forall|q: Seq<char>| (has_row(rows, q) && q != id) implies #[trigger] has_row(
                r,
                q,
            ) by {
                let i = choose|i: int| 0 <= i < rows.len() && (#[trigger] rows[i]).plugin_package_id
                    == q;
                if i > 0 {
                    assert(rows.drop_first()[i - 1].plugin_package_id == q);
                    assert(has_row(rr, q));
                    let j = choose|j: int| 0 <= j < rr.len() && (#[trigger] rr[j]).plugin_package_id
                        == q;
                    assert(r[j + 1].plugin_package_id == q);
                } else {
                    assert(r[0].plugin_package_id == q);
                }
            }
            if forall|i: int, j: int|
                0 <= i < j < rows.len() ==> (#[trigger] rows[i]).plugin_package_id != (
                #[trigger] rows[j]).plugin_package_id {
                assert forall|i: int, j: int|
                    0 <= i < j < rows.drop_first().len() implies (
                #[trigger] rows.drop_first()[i]).plugin_package_id != (
                #[trigger] rows.drop_first()[j]).plugin_package_id by {
                    assert(rows.drop_first()[i] == rows[i + 1]);
                    assert(rows.drop_first()[j] == rows[j + 1]);
                }
                assert forall|i: int, j: int|
                    0 <= i < j < r.len() implies (#[trigger] r[i]).plugin_package_id != (
                #[trigger] r[j]).plugin_package_id by {
                    if i == 0 {
                        assert(r[j] == rr[j - 1]);
                        assert(has_row(rr, rr[j - 1].plugin_package_id));
                        if r[0].plugin_package_id == rr[j - 1].plugin_package_id {
                            let m = choose|m: int|
                                0 <= m < rows.drop_first().len() && (
                                #[trigger] rows.drop_first()[m]).plugin_package_id == r[
                                0].plugin_package_id;
                            assert(rows[m + 1].plugin_package_id == rows[0].plugin_package_id);
                        }
                    } else {
                        assert(r[i] == rr[i - 1] && r[j] == rr[j - 1]);
                    }
                }
            }
        }
    }
}

/// The id spelled out of valid segments has the right shape.
pub proof fn lemma_plugin_id_valid(a: Seq<char>, p: Seq<char>, v: Seq<char>)
    requires
        valid_segment(a),
        valid_segment(p),
        valid_segment(v),
    ensures
        valid_plugin_id(plugin_id_of(a, p, v)),
{
    crate::paths::lemma_split_prepend_segment(a, p + slash() + v);
    crate::paths::lemma_split_prepend_segment(p, v);
    crate::paths::lemma_split_single(v);
    assert(plugin_id_of(a, p, v) =~= a + slash() + (p + slash() + v));
    assert(split_slash(plugin_id_of(a, p, v)) == seq![a] + (seq![p] + seq![v]));
    assert(split_slash(plugin_id_of(a, p, v))[0] == a);
    assert(split_slash(plugin_id_of(a, p, v))[1] == p);
    assert(split_slash(plugin_id_of(a, p, v))[2] == v);
}

/// The view of an optional text argument.
pub open spec fn opt_text_view(m: Option<&str>) -> Option<Seq<char>> {
    match m {
        Some(s) => Some(s@),
        None => None,
    }
}

impl StoredFile {
    /// A field-for-field copy whose mathematical value is unchanged.
    pub fn duplicate(&self) -> (r: StoredFile)
        ensures
            r@ == self@,
    {
        StoredFile { path: self.path.clone(), content: self.content.clone() }
    }
}

impl PluginRow {
    /// A field-for-field copy whose mathematical value is unchanged.
    pub fn duplicate(&self) -> (r: PluginRow)
        ensures
            r@ == self@,
    {
        PluginRow {
            plugin_package_id: self.plugin_package_id.clone(),
            install_dir: self.install_dir.clone(),
            missing: self.missing,
        }
    }
}

/// Writes a file into the list: replaces the first file of the same path,
/// or appends.
fn set_file_exec(files: &mut Vec<StoredFile>, path: String, content: String)
    ensures
        final(files).deep_view() == set_file(old(files).deep_view(), path@, content@),
{
    let ghost fs0 = files.deep_view();
    let n = files.len();
    let mut k: usize = 0;
    while k < n
        invariant
            k <= n,
            n == files@.len(),
            fs0 == files.deep_view(),
            fs0 == old(files).deep_view(),
            forall|j: int| 0 <= j < k ==> (#[trigger] fs0[j]).path != path@,
        decreases n - k,
    {
        proof {
            assert(fs0[k as int] == files@[k as int]@);
        }
        if crate::text::str_eq(files[k].path.as_str(), path.as_str()) {
            let ghost vs0 = files@;
            let ghost pv = path@;
            let ghost cv = content@;
            proof {
                lemma_set_file_match(fs0, path@, content@, k as int);
            }
            files.remove(k);
            files.insert(k, StoredFile { path, content });
            proof {
                assert(files@ =~= vs0.update(k as int, files@[k as int]));
                assert(files@[k as int]@ == SpecStoredFile { path: pv, content: cv });
                assert(files.deep_view() =~= fs0.update(
                    k as int,
                    SpecStoredFile { path: pv, content: cv },
                ));
            }
            return ;
        }
        k = k + 1;
    }
    proof {
        lemma_set_file_no_match(fs0, path@, content@);
    }
    files.push(StoredFile { path, content });
    proof {
        assert(files.deep_view() =~= fs0.push(
            SpecStoredFile { path: path@, content: content@ },
        ));
    }
}

/// Whether some row carries the given plugin package id.
fn has_row_exec(rows: &Vec<PluginRow>, id: &str) -> (r: bool)
    ensures
        r == has_row(rows.deep_view(), id@),
{
    let mut i: usize = 0;
    while i < rows.len()
        invariant
            i <= rows@.len(),
            forall|j: int| 0 <= j < i ==> (#[trigger] rows.deep_view()[j]).plugin_package_id
                != id@,
        decreases rows@.len() - i,
    {
        proof {
            assert(rows.deep_view()[i as int] == rows@[i as int]@);
        }
        if crate::text::str_eq(rows[i].plugin_package_id.as_str(), id) {
            return true;
        }
        i = i + 1;
    }
    false
}

impl ExtPluginStore {
    /// The store's well-formedness.
    pub open spec fn wf(&self) -> bool {
        store_wf(self@)
    }

    /// An empty store over the given base directory.
    pub fn new(save_dir: String) -> (r: ExtPluginStore)
        ensures
            r.wf(),
            r@.save_dir == save_dir@,
            r@.files == Seq::<SpecStoredFile>::empty(),
            r@.rows == Seq::<SpecPluginRow>::empty(),
    {
        let r = ExtPluginStore { save_dir, files: Vec::new(), rows: Vec::new() };
        proof {
            assert(r@.files =~= Seq::<SpecStoredFile>::empty());
            assert(r@.rows =~= Seq::<SpecPluginRow>::empty());
        }
        r
    }

    /// Installs an external plugin bundle: writes `package.js` (and
    /// `metadata.json` when given) under
    /// `{save_dir}/{author_id}/{package_id}/{version}/` and registers one
    /// row.  Refuses an id that is already registered, changing nothing:
    /// no silent overwrite.
    pub fn install_ext_plugin(
        &mut self,
        author_id: &str,
        package_id: &str,
        version: &str,
        package_js: &str,
        metadata: Option<&str>,
    ) -> (r: Result<String, WorkflowError>)
        requires
            old(self).wf(),
            valid_segment(author_id@),
            valid_segment(package_id@),
            valid_segment(version@),
        ensures
            final(self).wf(),
            match r {
                Ok(id) => {
                    &&& !has_row(old(self)@.rows, plugin_id_of(author_id@, package_id@, version@))
                    &&& id@ == plugin_id_of(author_id@, package_id@, version@)
                    &&& final(self)@ == spec_install(
                        old(self)@,
                        author_id@,
                        package_id@,
                        version@,
                        package_js@,
                        opt_text_view(metadata),
                    )
                },
                Err(e) => {
                    &&& has_row(old(self)@.rows, plugin_id_of(author_id@, package_id@, version@))
                    &&& e@ == SpecWorkflowError::AlreadyInstalled(
                        plugin_id_of(author_id@, package_id@, version@),
                    )
                    &&& final(self)@ == old(self)@
                },
            },
    {
        let ghost st0 = self@;
        let id = crate::paths::make_plugin_id(author_id, package_id, version);
        if has_row_exec(&self.rows, id.as_str()) {
            return Err(WorkflowError::AlreadyInstalled(id));
        }
        let dir = crate::paths::make_install_dir(self.save_dir.as_str(), id.as_str());
        proof {
            assert(dir@ == install_dir_of(st0.save_dir, author_id@, package_id@, version@));
        }
        let pjs_path = crate::paths::make_package_js_path(dir.as_str());
        set_file_exec(&mut self.files, pjs_path, String::from_str(package_js));
        let ghost files1 = self.files.deep_view();
        if let Some(m) = metadata {
            let meta_path = crate::paths::make_metadata_json_path(dir.as_str());
            set_file_exec(&mut self.files, meta_path, String::from_str(m));
        }
        self.rows.push(
            PluginRow { plugin_package_id: id.clone(), install_dir: dir, missing: false },
        );
        proof {
            let st1 = spec_install(
                st0,
                author_id@,
                package_id@,
                version@,
                package_js@,
                opt_text_view(metadata),
            );
            assert(self@.rows =~= st1.rows);
            assert(self@ =~= st1);
            lemma_set_file_props(st0.files, package_js_path(dir@), package_js@);
            if metadata is Some {
                lemma_set_file_props(files1, metadata_json_path(dir@), metadata->Some_0@);
            }
            lemma_plugin_id_valid(author_id@, package_id@, version@);
            assert forall|i: int, j: int| 0 <= i < j < self@.rows.len() implies (
            #[trigger] self@.rows[i]).plugin_package_id != (
            #[trigger] self@.rows[j]).plugin_package_id by {
                if j == self@.rows.len() - 1 {
                    assert(self@.rows[i] == st0.rows[i]);
                }
            }
        }
        Ok(id)
    }

    /// Uninstalls an external plugin: removes every file under the row's
    /// install directory, then the row itself.  An unknown id is refused,
    /// changing nothing.
    pub fn uninstall_ext_plugin(&mut self, plugin_package_id: &str) -> (r: Result<
        (),
        WorkflowError,
    >)
        requires
            old(self).wf(),
        ensures
            final(self).wf(),
            match r {
                Ok(_) => {
                    &&& has_row(old(self)@.rows, plugin_package_id@)
                    &&& final(self)@ == spec_uninstall(old(self)@, plugin_package_id@)
                },
                Err(e) => {
                    &&& !has_row(old(self)@.rows, plugin_package_id@)
                    &&& e@ == SpecWorkflowError::NotFound(plugin_package_id@)
                    &&& final(self)@ == old(self)@
                },
            },
    {
        let ghost st0 = self@;
        let ghost rs0 = self.rows.deep_view();
        proof {
            assert(rs0.skip(0) =~= rs0);
        }
        let mut i: usize = 0;
        let mut found: Option<usize> = None;
        while i < self.rows.len()
            invariant
                i <= self.rows@.len(),
                rs0 == self.rows.deep_view(),
                found is None ==> row_for(rs0, plugin_package_id@) == row_for(
                    rs0.skip(i as int),
                    plugin_package_id@,
                ),
                match found {
                    Some(k) => {
                        &&& k < self.rows@.len()
                        &&& row_for(rs0, plugin_package_id@) == Some(rs0[k as int])
                        &&& rs0[k as int].plugin_package_id == plugin_package_id@
                    },
                    None => true,
                },
            decreases self.rows@.len() - i,
        {
            if found.is_none() {
                proof {
                    assert(rs0.skip(i as int)[0] == rs0[i as int]);
                    assert(rs0[i as int] == self.rows@[i as int]@);
                }
                if crate::text::str_eq(
                    self.rows[i].plugin_package_id.as_str(),
                    plugin_package_id,
                ) {
                    found = Some(i);
                } else {
                    proof {
                        assert(rs0.skip(i as int).drop_first() =~= rs0.skip(i as int + 1));
                    }
                }
            }
            i = i + 1;
        }
        let k = match found {
            Some(k) => k,
            None => {
                proof {
                    assert(rs0.skip(self.rows@.len() as int).len() == 0);
                    if has_row(rs0, plugin_package_id@) {
                        let w = choose|w: int|
                            0 <= w < rs0.len() && (#[trigger] rs0[w]).plugin_package_id
                                == plugin_package_id@;
                        lemma_row_for_some(rs0, plugin_package_id@, w);
                    }
                }
                return Err(WorkflowError::NotFound(String::from_str(plugin_package_id)));
            },
        };
        proof {
            reveal_strlit("/");
            assert("/"@ =~= slash());
        }
        let mut prefix = self.rows[k].install_dir.clone();
        prefix.append("/");
        let ghost pfx = prefix@;
        proof {
            assert(pfx == rs0[k as int].install_dir + slash());
        }
        let ghost fs0 = self.files.deep_view();
        proof {
            assert(fs0.skip(0) =~= fs0);
        }
        let mut kept: Vec<StoredFile> = Vec::new();
        let mut j: usize = 0;
        proof {
            assert(kept.deep_view() =~= Seq::<SpecStoredFile>::empty());
            assert(Seq::<SpecStoredFile>::empty() + remove_under(fs0, pfx) =~= remove_under(
                fs0,
                pfx,
            ));
        }
        while j < self.files.len()
            invariant
                j <= self.files@.len(),
                fs0 == self.files.deep_view(),
                pfx == prefix@,
                remove_under(fs0, pfx) == kept.deep_view() + remove_under(
                    fs0.skip(j as int),
                    pfx,
                ),
            decreases self.files@.len() - j,
        {
            proof {
                assert(fs0.skip(j as int)[0] == fs0[j as int]);
                assert(fs0[j as int] == self.files@[j as int]@);
                assert(fs0.skip(j as int).drop_first() =~= fs0.skip(j as int + 1));
            }
            let ghost kept0 = kept.deep_view();
            if !crate::paths::str_starts_with(self.files[j].path.as_str(), prefix.as_str()) {
                kept.push(self.files[j].duplicate());
                proof {
                    assert(remove_under(fs0.skip(j as int), pfx) == seq![fs0[j as int]]
                        + remove_under(fs0.skip(j as int + 1), pfx));
                    assert(kept.deep_view() =~= kept0.push(fs0[j as int]));
                    assert(kept0 + (seq![fs0[j as int]] + remove_under(
                        fs0.skip(j as int + 1),
                        pfx,
                    )) =~= kept.deep_view() + remove_under(fs0.skip(j as int + 1), pfx));
                }
            } else {
                proof {
                    assert(remove_under(fs0.skip(j as int), pfx) == remove_under(
                        fs0.skip(j as int + 1),
                        pfx,
                    ));
                }
            }
            j = j + 1;
        }
        proof {
            assert(fs0.skip(self.files@.len() as int).len() == 0);
            assert(kept.deep_view() + remove_under(fs0.skip(self.files@.len() as int), pfx)
                =~= kept.deep_view());
        }
        self.files = kept;
        let mut kept_rows: Vec<PluginRow> = Vec::new();
        let mut j2: usize = 0;
        proof {
            assert(kept_rows.deep_view() =~= Seq::<SpecPluginRow>::empty());
            assert(Seq::<SpecPluginRow>::empty() + remove_row(rs0, plugin_package_id@)
                =~= remove_row(rs0, plugin_package_id@));
        }
        while j2 < self.rows.len()
            invariant
                j2 <= self.rows@.len(),
                rs0 == self.rows.deep_view(),
                remove_row(rs0, plugin_package_id@) == kept_rows.deep_view() + remove_row(
                    rs0.skip(j2 as int),
                    plugin_package_id@,
                ),
            decreases self.rows@.len() - j2,
        {
            proof {
                assert(rs0.skip(j2 as int)[0] == rs0[j2 as int]);
                assert(rs0[j2 as int] == self.rows@[j2 as int]@);
                assert(rs0.skip(j2 as int).drop_first() =~= rs0.skip(j2 as int + 1));
            }
            let ghost kr0 = kept_rows.deep_view();
            if !crate::text::str_eq(self.rows[j2].plugin_package_id.as_str(), plugin_package_id) {
                kept_rows.push(self.rows[j2].duplicate());
                proof {
                    assert(kept_rows.deep_view() =~= kr0.push(rs0[j2 as int]));
                    assert(kr0 + (seq![rs0[j2 as int]] + remove_row(
                        rs0.skip(j2 as int + 1),
                        plugin_package_id@,
                    )) =~= kept_rows.deep_view() + remove_row(
                        rs0.skip(j2 as int + 1),
                        plugin_package_id@,
                    ));
                }
            }
            j2 = j2 + 1;
        }
        proof {
            assert(rs0.skip(self.rows@.len() as int).len() == 0);
            assert(kept_rows.deep_view() + remove_row(
                rs0.skip(self.rows@.len() as int),
                plugin_package_id@,
            ) =~= kept_rows.deep_view());
        }
        self.rows = kept_rows;
        proof {
            assert(self@ =~= spec_uninstall(st0, plugin_package_id@));
            lemma_remove_under_props(fs0, pfx);
            lemma_remove_row_props(rs0, plugin_package_id@);
            assert forall|m: int| 0 <= m < self@.rows.len() implies (
            #[trigger] self@.rows[m]).install_dir == self@.save_dir + slash()
                + self@.rows[m].plugin_package_id && valid_plugin_id(
                self@.rows[m].plugin_package_id,
            ) by {
                assert(rs0.contains(self@.rows[m]));
                let w = choose|w: int| 0 <= w < rs0.len() && rs0[w] == self@.rows[m];
                assert(st0.rows[w] == self@.rows[m]);
            }
        }
        Ok(())
    }

    /// Reports every plugin package id whose `package.js` stands in the
    /// three-level layout under the save directory, in file order.
    pub fn scan_ext_plugin_dir(&self) -> (r: Vec<String>)
        ensures
            r.deep_view() == scan_ids(self@.save_dir, self@.files),
    {
        let ghost fs0 = self.files.deep_view();
        proof {
            assert(fs0.skip(0) =~= fs0);
        }
        let mut acc: Vec<String> = Vec::new();
        proof {
            assert(acc.deep_view() =~= Seq::<Seq<char>>::empty());
            assert(Seq::<Seq<char>>::empty() + scan_ids(self@.save_dir, fs0) =~= scan_ids(
                self@.save_dir,
                fs0,
            ));
        }
        let mut i: usize = 0;
        while i < self.files.len()
            invariant
                i <= self.files@.len(),
                fs0 == self.files.deep_view(),
                fs0 == self@.files,
                scan_ids(self@.save_dir, fs0) == acc.deep_view() + scan_ids(
                    self@.save_dir,
                    fs0.skip(i as int),
                ),
            decreases self.files@.len() - i,
        {
            proof {
                assert(fs0.skip(i as int)[0] == fs0[i as int]);
                assert(fs0[i as int] == self.files@[i as int]@);
                assert(fs0.skip(i as int).drop_first() =~= fs0.skip(i as int + 1));
            }
            let ghost acc0 = acc.deep_view();
            match crate::paths::id_from_path_exec(
                self.save_dir.as_str(),
                self.files[i].path.as_str(),
            ) {
                Some(id) => {
                    acc.push(id);
                    proof {
                        assert(acc.deep_view() =~= acc0.push(acc.deep_view()[acc0.len() as int]));
                        assert(acc0 + (seq![acc.deep_view()[acc0.len() as int]] + scan_ids(
                            self@.save_dir,
                            fs0.skip(i as int + 1),
                        )) =~= acc.deep_view() + scan_ids(self@.save_dir, fs0.skip(i as int + 1)));
                    }
                },
                None => {},
            }
            i = i + 1;
        }
        proof {
            assert(fs0.skip(self.files@.len() as int).len() == 0);
            assert(acc.deep_view() + scan_ids(self@.save_dir, fs0.skip(self.files@.len() as int))
                =~= acc.deep_view());
        }
        acc
    }
}

/// Appending a row of the sought id to rows without it makes the lookup
/// find exactly that row.
pub proof fn lemma_row_for_push(rows: Seq<SpecPluginRow>, row: SpecPluginRow, id: Seq<char>)
    requires
        forall|i: int| 0 <= i < rows.len() ==> (#[trigger] rows[i]).plugin_package_id != id,
        row.plugin_package_id == id,
    ensures
        row_for(rows.push(row), id) == Some(row),
    decreases rows.len(),
{
    if rows.len() == 0 {
        assert(rows.push(row)[0] == row);
    } else {
        assert(rows.push(row)[0] == rows[0]);
        assert(rows.push(row).drop_first() =~= rows.drop_first().push(row));
        assert(forall|i: int| 0 <= i < rows.drop_first().len() ==> (
        #[trigger] rows.drop_first()[i]).plugin_package_id != id);
        lemma_row_for_push(rows.drop_first(), row, id);
    }
}

/// What removing a prefix does to an appended file.
pub proof fn lemma_remove_under_push(
    files: Seq<SpecStoredFile>,
    f: SpecStoredFile,
    prefix: Seq<char>,
)
    ensures
        remove_under(files.push(f), prefix) == if starts_with(f.path, prefix) {
            remove_under(files, prefix)
        } else {
            remove_under(files, prefix).push(f)
        },
    decreases files.len(),
{
    if files.len() == 0 {
        assert(files.push(f)[0] == f);
        assert(files.push(f).drop_first() =~= files);
        if !starts_with(f.path, prefix) {
            assert(seq![f] + remove_under(files, prefix) =~= remove_under(files, prefix).push(f));
        }
    } else {
        assert(files.push(f)[0] == files[0]);
        assert(files.push(f).drop_first() =~= files.drop_first().push(f));
        lemma_remove_under_push(files.drop_first(), f, prefix);
        if !starts_with(files[0].path, prefix) && !starts_with(f.path, prefix) {
            assert(seq![files[0]] + remove_under(files.drop_first(), prefix).push(f)
                =~= (seq![files[0]] + remove_under(files.drop_first(), prefix)).push(f));
        }
    }
}

/// Removing a prefix no file's path begins with changes nothing.
pub proof fn lemma_remove_under_none(files: Seq<SpecStoredFile>, prefix: Seq<char>)
    requires
        forall|i: int| 0 <= i < files.len() ==> !starts_with(
            (#[trigger] files[i]).path,
            prefix,
        ),
    ensures
        remove_under(files, prefix) == files,
    decreases files.len(),
{
    if files.len() > 0 {
        assert(forall|i: int| 0 <= i < files.drop_first().len() ==> !starts_with(
            (#[trigger] files.drop_first()[i]).path,
            prefix,
        ));
        lemma_remove_under_none(files.drop_first(), prefix);
        assert(seq![files[0]] + files.drop_first() =~= files);
    }
}

/// What removing an id does to an appended row.
pub proof fn lemma_remove_row_push(rows: Seq<SpecPluginRow>, row: SpecPluginRow, id: Seq<char>)
    ensures
        remove_row(rows.push(row), id) == if row.plugin_package_id == id {
            remove_row(rows, id)
        } else {
            remove_row(rows, id).push(row)
        },
    decreases rows.len(),
{
    if rows.len() == 0 {
        assert(rows.push(row)[0] == row);
        assert(rows.push(row).drop_first() =~= rows);
        if row.plugin_package_id != id {
            assert(seq![row] + remove_row(rows, id) =~= remove_row(rows, id).push(row));
        }
    } else {
        assert(rows.push(row)[0] == rows[0]);
        assert(rows.push(row).drop_first() =~= rows.drop_first().push(row));
        lemma_remove_row_push(rows.drop_first(), row, id);
        if rows[0].plugin_package_id != id && row.plugin_package_id != id {
            assert(seq![rows[0]] + remove_row(rows.drop_first(), id).push(row) =~= (seq![rows[0]]
                + remove_row(rows.drop_first(), id)).push(row));
        }
    }
}

/// Removing an id no row carries changes nothing.
pub proof fn lemma_remove_row_none(rows: Seq<SpecPluginRow>, id: Seq<char>)
    requires
        forall|i: int| 0 <= i < rows.len() ==> (#[trigger] rows[i]).plugin_package_id != id,
    ensures
        remove_row(rows, id) == rows,
    decreases rows.len(),
{
    if rows.len() > 0 {
        assert(forall|i: int| 0 <= i < rows.drop_first().len() ==> (
        #[trigger] rows.drop_first()[i]).plugin_package_id != id);
        lemma_remove_row_none(rows.drop_first(), id);
        assert(seq![rows[0]] + rows.drop_first() =~= rows);
    }
}

/// Uninstalling an installed plugin undoes the install, and installing it
/// again reproduces an identical layout and row: the lifecycle is
/// idempotent on a store that carried nothing under the plugin's install
/// directory.
pub proof fn lemma_uninstall_reinstall_round_trip(
    st: SpecStore,
    a: Seq<char>,
    p: Seq<char>,
    v: Seq<char>,
    js: Seq<char>,
    meta: Option<Seq<char>>,
)
    requires
        valid_segment(a),
        valid_segment(p),
        valid_segment(v),
        !has_row(st.rows, plugin_id_of(a, p, v)),
        forall|i: int| 0 <= i < st.files.len() ==> !starts_with(
            (#[trigger] st.files[i]).path,
            install_dir_of(st.save_dir, a, p, v) + slash(),
        ),
    ensures
        spec_uninstall(spec_install(st, a, p, v, js, meta), plugin_id_of(a, p, v)) == st,
        spec_install(
            spec_uninstall(spec_install(st, a, p, v, js, meta), plugin_id_of(a, p, v)),
            a,
            p,
            v,
            js,
            meta,
        ) == spec_install(st, a, p, v, js, meta),
{
    let id = plugin_id_of(a, p, v);
    let dir = install_dir_of(st.save_dir, a, p, v);
    let prefix = dir + slash();
    let pjs = package_js_path(dir);
    let mp = metadata_json_path(dir);
    let st1 = spec_install(st, a, p, v, js, meta);
    let row = SpecPluginRow { plugin_package_id: id, install_dir: dir, missing: false };
    assert(starts_with(pjs, prefix)) by {
        assert(pjs.subrange(0, prefix.len() as int) =~= prefix);
    }
    assert(starts_with(mp, prefix)) by {
        assert(mp.subrange(0, prefix.len() as int) =~= prefix);
    }
    assert(forall|i: int| 0 <= i < st.files.len() ==> (#[trigger] st.files[i]).path != pjs);
    assert(forall|i: int| 0 <= i < st.files.len() ==> (#[trigger] st.files[i]).path != mp);
    lemma_set_file_no_match(st.files, pjs, js);
    let f1 = SpecStoredFile { path: pjs, content: js };
    assert(forall|i: int| 0 <= i < st.rows.len() ==> (#[trigger] st.rows[i]).plugin_package_id
        != id);
    lemma_row_for_push(st.rows, row, id);
    lemma_remove_row_push(st.rows, row, id);
    lemma_remove_row_none(st.rows, id);
    assert(st1.rows == st.rows.push(row));
    assert(remove_row(st1.rows, id) == st.rows);
    match meta {
        Some(m) => {
            assert(mp.len() != pjs.len());
            assert(forall|i: int|
                0 <= i < st.files.push(f1).len() ==> (#[trigger] st.files.push(f1)[i]).path
                    != mp);
            lemma_set_file_no_match(st.files.push(f1), mp, m);
            let f2 = SpecStoredFile { path: mp, content: m };
            assert(st1.files == st.files.push(f1).push(f2));
            lemma_remove_under_push(st.files.push(f1), f2, prefix);
            lemma_remove_under_push(st.files, f1, prefix);
            lemma_remove_under_none(st.files, prefix);
            assert(remove_under(st1.files, prefix) == st.files);
        },
        None => {
            assert(st1.files == st.files.push(f1));
            lemma_remove_under_push(st.files, f1, prefix);
            lemma_remove_under_none(st.files, prefix);
            assert(remove_under(st1.files, prefix) == st.files);
        },
    }
    assert(spec_uninstall(st1, id) =~= st);
}

/// Membership in a scan: an id is reported exactly when some stored file's
/// path spells it.
pub proof fn lemma_scan_ids_contains(save: Seq<char>, files: Seq<SpecStoredFile>, id: Seq<char>)
    ensures
        scan_ids(save, files).contains(id) <==> exists|i: int|
            0 <= i < files.len() && id_from_path(save, (#[trigger] files[i]).path) == Some(id),
    decreases files.len(),
{
    if files.len() == 0 {
    } else {
        lemma_scan_ids_contains(save, files.drop_first(), id);
        let rest = scan_ids(save, files.drop_first());
        match id_from_path(save, files[0].path) {
            Some(x) => {
                let whole = seq![x] + rest;
                assert(scan_ids(save, files) == whole);
                if whole.contains(id) {
                    let i = choose|i: int| 0 <= i < whole.len() && whole[i] == id;
                    if i == 0 {
                        assert(id_from_path(save, files[0].path) == Some(id));
                    } else {
                        assert(rest[i - 1] == id);
                        assert(rest.contains(id));
                        let j = choose|j: int|
                            0 <= j < files.drop_first().len() && id_from_path(
                                save,
                                (#[trigger] files.drop_first()[j]).path,
                            ) == Some(id);
                        assert(files[j + 1] == files.drop_first()[j]);
                    }
                }
                if exists|i: int|
                    0 <= i < files.len() && id_from_path(save, (#[trigger] files[i]).path)
                        == Some(id) {
                    let i = choose|i: int|
                        0 <= i < files.len() && id_from_path(save, (#[trigger] files[i]).path)
                            == Some(id);
                    if i == 0 {
                        assert(whole[0] == id);
                    } else {
                        assert(files.drop_first()[i - 1] == files[i]);
                        assert(rest.contains(id));
                        let j = choose|j: int| 0 <= j < rest.len() && rest[j] == id;
                        assert(whole[j + 1] == id);
                    }
                    assert(whole.contains(id));
                }
            },
            None => {
                assert(scan_ids(save, files) == rest);
                if rest.contains(id) {
                    let j = choose|j: int|
                        0 <= j < files.drop_first().len() && id_from_path(
                            save,
                            (#[trigger] files.drop_first()[j]).path,
                        ) == Some(id);
                    assert(files[j + 1] == files.drop_first()[j]);
                }
                if exists|i: int|
                    0 <= i < files.len() && id_from_path(save, (#[trigger] files[i]).path)
                        == Some(id) {
                    let i = choose|i: int|
                        0 <= i < files.len() && id_from_path(save, (#[trigger] files[i]).path)
                            == Some(id);
                    assert(i != 0);
                    assert(files.drop_first()[i - 1] == files[i]);
                }
            },
        }
    }
}

/// After an install, a scan reports the installed plugin package id.
pub proof fn lemma_scan_contains_after_install(
    st: SpecStore,
    a: Seq<char>,
    p: Seq<char>,
    v: Seq<char>,
    js: Seq<char>,
    meta: Option<Seq<char>>,
)
    requires
        valid_segment(a),
        valid_segment(p),
        valid_segment(v),
    ensures
        scan_ids(
            st.save_dir,
            spec_install(st, a, p, v, js, meta).files,
        ).contains(plugin_id_of(a, p, v)),
{
    let id = plugin_id_of(a, p, v);
    let dir = install_dir_of(st.save_dir, a, p, v);
    let pjs = package_js_path(dir);
    let mp = metadata_json_path(dir);
    let st1 = spec_install(st, a, p, v, js, meta);
    lemma_set_file_props(st.files, pjs, js);
    let f1s = set_file(st.files, pjs, js);
    assert(has_path(f1s, pjs));
    if meta is Some {
        lemma_set_file_props(f1s, mp, meta->Some_0);
        assert(mp.len() != pjs.len());
        assert(has_path(st1.files, pjs));
    }
    assert(has_path(st1.files, pjs));
    let i = choose|i: int| 0 <= i < st1.files.len() && (#[trigger] st1.files[i]).path == pjs;
    crate::paths::lemma_id_from_install_path(st.save_dir, a, p, v);
    assert(id_from_path(st.save_dir, st1.files[i].path) == Some(id));
    lemma_scan_ids_contains(st.save_dir, st1.files, id);
}

/// After an uninstall, a scan no longer reports the plugin package id.
pub proof fn lemma_scan_excludes_after_uninstall(st: SpecStore, id: Seq<char>)
    requires
        store_wf(st),
        has_row(st.rows, id),
    ensures
        !scan_ids(st.save_dir, spec_uninstall(st, id).files).contains(id),
{
    let w = choose|w: int| 0 <= w < st.rows.len() && (#[trigger] st.rows[w]).plugin_package_id
        == id;
    lemma_row_for_some(st.rows, id, w);
    let row = row_for(st.rows, id)->Some_0;
    lemma_row_for_contains(st.rows, id);
    let wr = choose|wr: int| 0 <= wr < st.rows.len() && st.rows[wr] == row;
    assert(row.install_dir == st.save_dir + slash() + id);
    assert(valid_plugin_id(id));
    let prefix = row.install_dir + slash();
    let st2 = spec_uninstall(st, id);
    assert(st2.files == remove_under(st.files, prefix));
    lemma_remove_under_props(st.files, prefix);
    if scan_ids(st.save_dir, st2.files).contains(id) {
        lemma_scan_ids_contains(st.save_dir, st2.files, id);
        let i = choose|i: int|
            0 <= i < st2.files.len() && id_from_path(st.save_dir, (#[trigger] st2.files[i]).path)
                == Some(id);
        let segs = split_slash(id);
        crate::paths::lemma_split_is_partition_three(id);
        let a = segs[0];
        let p = segs[1];
        let v = segs[2];
        assert(valid_segment(a) && valid_segment(p) && valid_segment(v));
        assert(id =~= plugin_id_of(a, p, v));
        crate::paths::lemma_id_path_under_dir(st.save_dir, st2.files[i].path, a, p, v);
        assert(install_dir_of(st.save_dir, a, p, v) =~= row.install_dir);
        assert(st2.files[i].path == package_js_path(row.install_dir));
        assert(starts_with(st2.files[i].path, prefix)) by {
            assert(st2.files[i].path.subrange(0, prefix.len() as int) =~= prefix);
        }
        assert(!starts_with(st2.files[i].path, prefix));
    }
}

/// A successful id lookup returns one of the rows, carrying that id.
pub proof fn lemma_row_for_contains(rows: Seq<SpecPluginRow>, id: Seq<char>)
    requires
        row_for(rows, id) is Some,
    ensures
        rows.contains(row_for(rows, id)->Some_0),
        row_for(rows, id)->Some_0.plugin_package_id == id,
    decreases rows.len(),
{
    if rows.len() > 0 && rows[0].plugin_package_id != id {
        lemma_row_for_contains(rows.drop_first(), id);
        let r = row_for(rows, id)->Some_0;
        let j = choose|j: int| 0 <= j < rows.drop_first().len() && rows.drop_first()[j] == r;
        assert(rows[j + 1] == r);
    }
}

/// A row carrying the id at some index means the id lookup succeeds.
pub proof fn lemma_row_for_some(rows: Seq<SpecPluginRow>, id: Seq<char>, w: int)
    requires
        0 <= w < rows.len(),
        rows[w].plugin_package_id == id,
    ensures
        row_for(rows, id) is Some,
    decreases w,
{
    if rows[0].plugin_package_id != id {
        assert(rows.drop_first()[w - 1] == rows[w]);
        lemma_row_for_some(rows.drop_first(), id, w - 1);
    }
}

} // verus!
