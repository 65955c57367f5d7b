//! The file browser shown when no file is open: a directory listing with a
//! cursor and a scrolled window of rows.
use std::path::PathBuf;
use vstd::prelude::*;
use vstd::multiset::Multiset;
use vstd::string::StringExecFns;
use crate::bytepat::{lowercase, to_lowercase};
use crate::text::{chars_of, same_text};

verus! {

/// `std::path::PathBuf`, carried through as an opaque value.
#[verifier::external_type_specification]
#[verifier::external_body]
pub struct ExPathBuf(PathBuf);

/// One row of the listing.
pub struct DirEntry {
    pub name: String,
    pub is_dir: bool,
    pub size: u64,
}

/// What a row holds, as plain values: name, whether a directory, size.
pub open spec fn entry_view(e: DirEntry) -> (Seq<char>, bool, u64) {
    (e.name@, e.is_dir, e.size)
}

/// The rows as plain values.
pub open spec fn entries_view(v: Seq<DirEntry>) -> Seq<(Seq<char>, bool, u64)> {
    v.map_values(|e: DirEntry| entry_view(e))
}

/// Whether `a` comes before `b` character by character (by code point, the
/// order of their UTF-8 bytes), a proper prefix first.
pub open spec fn text_before(a: Seq<char>, b: Seq<char>) -> bool
    decreases a.len(),
{
    if a.len() == 0 {
        b.len() > 0
    } else if b.len() == 0 {
        false
    } else if a[0] != b[0] {
        (a[0] as u32) < (b[0] as u32)
    } else {
        text_before(a.drop_first(), b.drop_first())
    }
}

/// The order is transitive.
pub proof fn lemma_text_before_trans(a: Seq<char>, b: Seq<char>, c: Seq<char>)
    requires
        text_before(a, b),
        text_before(b, c),
    ensures
        text_before(a, c),
    decreases a.len(),
{
    if a.len() > 0 && b.len() > 0 && c.len() > 0 && a[0] == b[0] && b[0] == c[0] {
        lemma_text_before_trans(a.drop_first(), b.drop_first(), c.drop_first());
    }
}

/// Nothing comes before itself.
pub proof fn lemma_text_before_irrefl(a: Seq<char>)
    ensures
        !text_before(a, a),
    decreases a.len(),
{
    if a.len() > 0 {
        lemma_text_before_irrefl(a.drop_first());
    }
}

/// Rows in order of their lower-case names (equal names in any order).
pub open spec fn by_lower_name(v: Seq<(Seq<char>, bool, u64)>) -> bool {
    forall|i: int, j: int| 0 <= i < j < v.len() ==> !text_before(lowercase(v[j].0), lowercase(v[i].0))
}

fn text_before_exec(a: &Vec<char>, b: &Vec<char>) -> (r: bool)
    ensures
        r == text_before(a@, b@),
{
    let mut i: usize = 0;
    proof {
        assert(a@.skip(0) =~= a@);
        assert(b@.skip(0) =~= b@);
    }
    while i < a.len() && i < b.len()
        invariant
            i <= a@.len(),
            i <= b@.len(),
            a@.subrange(0, i as int) == b@.subrange(0, i as int),
            text_before(a@, b@) == text_before(a@.skip(i as int), b@.skip(i as int)),
        decreases a@.len() - i,
    {
        if a[i] != b[i] {
            assert(a@.skip(i as int)[0] == a@[i as int]);
            assert(b@.skip(i as int)[0] == b@[i as int]);
            return (a[i] as u32) < (b[i] as u32);
        }
        assert(a@.skip(i as int).drop_first() =~= a@.skip(i + 1));
        assert(b@.skip(i as int).drop_first() =~= b@.skip(i + 1));
        assert(a@.subrange(0, i + 1) =~= a@.subrange(0, i as int).push(a@[i as int]));
        assert(b@.subrange(0, i + 1) =~= b@.subrange(0, i as int).push(b@[i as int]));
        i += 1;
    }
    i < b.len()
}

/// The rows of `v` whose lower-case name is `k`, in their order.
pub open spec fn with_key(v: Seq<(Seq<char>, bool, u64)>, k: Seq<char>) -> Seq<(Seq<char>, bool, u64)>
    decreases v.len(),
{
    if v.len() == 0 {
        v
    } else {
        with_key(v.drop_last(), k) + if lowercase(v.last().0) == k {
            seq![v.last()]
        } else {
            Seq::<(Seq<char>, bool, u64)>::empty()
        }
    }
}

proof fn lemma_with_key_add(a: Seq<(Seq<char>, bool, u64)>, b: Seq<(Seq<char>, bool, u64)>, k: Seq<char>)
    ensures
        with_key(a + b, k) == with_key(a, k) + with_key(b, k),
    decreases b.len(),
{
    if b.len() == 0 {
        assert(a + b =~= a);
        assert(with_key(a, k) + with_key(b, k) =~= with_key(a, k));
    } else {
        lemma_with_key_add(a, b.drop_last(), k);
        assert((a + b).drop_last() =~= a + b.drop_last());
        assert((a + b).last() == b.last());
        assert(with_key(a, k) + with_key(b.drop_last(), k) + (if lowercase(b.last().0) == k {
            seq![b.last()]
        } else {
            Seq::<(Seq<char>, bool, u64)>::empty()
        }) =~= with_key(a, k) + (with_key(b.drop_last(), k) + (if lowercase(b.last().0) == k {
            seq![b.last()]
        } else {
            Seq::<(Seq<char>, bool, u64)>::empty()
        })));
    }
}

proof fn lemma_with_key_none(v: Seq<(Seq<char>, bool, u64)>, k: Seq<char>)
    requires
        forall|i: int| 0 <= i < v.len() ==> lowercase(#[trigger] v[i].0) != k,
    ensures
        with_key(v, k) == Seq::<(Seq<char>, bool, u64)>::empty(),
    decreases v.len(),
{
    if v.len() > 0 {
        assert forall|i: int| 0 <= i < v.drop_last().len() implies lowercase(#[trigger] v.drop_last()[i].0) != k by {
            assert(v.drop_last()[i] == v[i]);
        }
        lemma_with_key_none(v.drop_last(), k);
        assert(lowercase(v[v.len() - 1].0) != k);
    }
}

proof fn lemma_with_key_single(x: (Seq<char>, bool, u64), k: Seq<char>)
    ensures
        with_key(seq![x], k) == if lowercase(x.0) == k {
            seq![x]
        } else {
            Seq::<(Seq<char>, bool, u64)>::empty()
        },
{
    assert(seq![x].drop_last() =~= Seq::<(Seq<char>, bool, u64)>::empty());
    assert(seq![x].last() == x);
    assert(with_key(Seq::<(Seq<char>, bool, u64)>::empty(), k) == Seq::<(Seq<char>, bool, u64)>::empty());
}

/// The keys are the lower-case names of the rows, in order, and come in
/// order.
pub open spec fn keyed(keys: Seq<Seq<char>>, rows: Seq<DirEntry>) -> bool {
    &&& keys.len() == rows.len()
    &&& forall|j: int| 0 <= j < keys.len() ==> #[trigger] keys[j] == lowercase(rows[j].name@)
    &&& forall|a: int, b: int| 0 <= a < b < keys.len() ==> !text_before(keys[b], keys[a])
}

proof fn lemma_keyed_insert(keys: Seq<Seq<char>>, rows: Seq<DirEntry>, pos: int, key: Seq<char>, e: DirEntry)
    requires
        keyed(keys, rows),
        0 <= pos <= keys.len(),
        key == lowercase(e.name@),
        forall|m: int| 0 <= m < pos ==> !text_before(key, #[trigger] keys[m]),
        pos < keys.len() ==> text_before(key, keys[pos]),
    ensures
        keyed(keys.insert(pos, key), rows.insert(pos, e)),
{
    let nk = keys.insert(pos, key);
    let nr = rows.insert(pos, e);
    assert forall|j: int| 0 <= j < nk.len() implies #[trigger] nk[j] == lowercase(nr[j].name@) by {
        if j > pos {
            assert(nk[j] == keys[j - 1]);
        }
    }
    assert forall|a: int, b: int| 0 <= a < b < nk.len() implies !text_before(nk[b], nk[a]) by {
        if b < pos {
        } else if b == pos {
            assert(nk[a] == keys[a]);
        } else if a < pos {
            assert(nk[a] == keys[a] && nk[b] == keys[b - 1]);
        } else if a == pos {
            assert(nk[b] == keys[b - 1]);
            if b - 1 == pos {
                lemma_text_before_irrefl(keys[pos]);
            }
            assert(!text_before(keys[b - 1], keys[pos]));
            if text_before(keys[b - 1], key) {
                lemma_text_before_trans(keys[b - 1], key, keys[pos]);
            }
        } else {
            assert(nk[a] == keys[a - 1] && nk[b] == keys[b - 1]);
        }
    }
}

/// Sorts rows by lower-case name (`str::to_lowercase`, compared as text),
/// keeping the order of rows with equal names.
pub fn sort_by_lower_name(list: Vec<DirEntry>) -> (r: Vec<DirEntry>)
    ensures
        entries_view(r@).to_multiset() == entries_view(list@).to_multiset(),
        by_lower_name(entries_view(r@)),
        forall|k: Seq<char>| #[trigger] with_key(entries_view(r@), k) == with_key(entries_view(list@), k),
{
    broadcast use vstd::seq_lib::to_multiset_insert, vstd::seq_lib::to_multiset_remove,
        vstd::seq_lib::group_to_multiset_ensures, vstd::multiset::group_multiset_axioms;

    let ghost orig = entries_view(list@);
    let mut rest = list;
    let mut out: Vec<DirEntry> = Vec::new();
    let mut keys: Vec<Vec<char>> = Vec::new();
    proof {
        assert(entries_view(out@) =~= Seq::<(Seq<char>, bool, u64)>::empty());
        assert(entries_view(out@).to_multiset() =~= Multiset::empty());
        assert(keys@.map_values(|k: Vec<char>| k@) =~= Seq::<Seq<char>>::empty());
    }
    while rest.len() > 0
        invariant
            entries_view(out@).to_multiset().add(entries_view(rest@).to_multiset()) == orig.to_multiset(),
            keyed(keys@.map_values(|k: Vec<char>| k@), out@),
            forall|k: Seq<char>| #[trigger] with_key(entries_view(out@), k) + with_key(entries_view(rest@), k)
                == with_key(orig, k),
        decreases rest@.len(),
    {
        let ghost old_out = out@;
        let ghost old_rest = rest@;
        let ghost old_keys = keys@.map_values(|k: Vec<char>| k@);
        let e = rest.remove(0);
        let low = to_lowercase(e.name.as_str());
        let key = chars_of(low.as_str());
        let mut pos: usize = 0;
        while pos < keys.len() && !text_before_exec(&key, &keys[pos])
            invariant
                pos <= keys@.len(),
                keys@.map_values(|k: Vec<char>| k@) == old_keys,
                forall|m: int| 0 <= m < pos ==> !text_before(key@, #[trigger] old_keys[m]),
            decreases keys@.len() - pos,
        {
            proof {
                assert(old_keys[pos as int] == keys@[pos as int]@);
            }
            pos += 1;
        }
        proof {
            if pos < keys@.len() {
                assert(old_keys[pos as int] == keys@[pos as int]@);
            }
            lemma_keyed_insert(old_keys, old_out, pos as int, key@, e);
            assert(entries_view(rest@) =~= entries_view(old_rest).remove(0));
            let ov = entries_view(old_out);
            let x = entry_view(e);
            assert(ov.insert(pos as int, x) =~= ov.subrange(0, pos as int) + seq![x] + ov.subrange(pos as int, ov.len() as int));
            assert(ov =~= ov.subrange(0, pos as int) + ov.subrange(pos as int, ov.len() as int));
            assert(entries_view(old_rest) =~= seq![x] + entries_view(rest@));
            assert forall|i: int| 0 <= i < ov.subrange(pos as int, ov.len() as int).len() implies lowercase(
                #[trigger] ov.subrange(pos as int, ov.len() as int)[i].0) != key@ by {
                let m = pos + i;
                assert(ov.subrange(pos as int, ov.len() as int)[i] == ov[m]);
                assert(old_keys[m] == lowercase(old_out[m].name@));
                if m == pos {
                    lemma_text_before_irrefl(key@);
                } else {
                    assert(!text_before(old_keys[m], old_keys[pos as int]));
                }
            }
            lemma_with_key_none(ov.subrange(pos as int, ov.len() as int), key@);
            assert forall|k: Seq<char>| #[trigger] with_key(ov.insert(pos as int, x), k) + with_key(entries_view(rest@), k)
                == with_key(orig, k) by {
                let pre = ov.subrange(0, pos as int);
                let suf = ov.subrange(pos as int, ov.len() as int);
                lemma_with_key_add(pre + seq![x], suf, k);
                lemma_with_key_add(pre, seq![x], k);
                lemma_with_key_add(pre, suf, k);
                lemma_with_key_add(seq![x], entries_view(rest@), k);
                lemma_with_key_single(x, k);
                assert(with_key(ov, k) + with_key(entries_view(old_rest), k) == with_key(orig, k));
                if lowercase(x.0) == k {
                    assert(with_key(suf, k) == Seq::<(Seq<char>, bool, u64)>::empty());
                    assert(with_key(pre, k) + with_key(suf, k) =~= with_key(pre, k));
                    assert(with_key(pre, k) + seq![x] + with_key(suf, k) + with_key(entries_view(rest@), k)
                        =~= with_key(pre, k) + with_key(suf, k) + (seq![x] + with_key(entries_view(rest@), k)));
                } else {
                    assert(with_key(pre, k) + Seq::<(Seq<char>, bool, u64)>::empty() =~= with_key(pre, k));
                    assert(Seq::<(Seq<char>, bool, u64)>::empty() + with_key(entries_view(rest@), k) =~= with_key(entries_view(rest@), k));
                }
            }
        }
        out.insert(pos, e);
        keys.insert(pos, key);
        proof {
            assert(keys@.map_values(|k: Vec<char>| k@) =~= old_keys.insert(pos as int, key@));
            assert(entries_view(out@) =~= entries_view(old_out).insert(pos as int, entry_view(e)));
            assert(entries_view(old_rest)[0] == entry_view(e));
            assert(entries_view(old_rest).to_multiset().count(entry_view(e)) > 0) by {
                assert(entries_view(old_rest).contains(entry_view(e)));
                vstd::seq_lib::to_multiset_contains(entries_view(old_rest), entry_view(e));
            }
            let x = entry_view(e);
            let mo = entries_view(old_out).to_multiset();
            let mr = entries_view(old_rest).to_multiset();
            assert(entries_view(out@).to_multiset() == entries_view(old_out).insert(pos as int, x).to_multiset());
            assert(pos <= entries_view(old_out).len());
            vstd::seq_lib::to_multiset_insert(entries_view(old_out), pos as int, x);
            assert(entries_view(rest@).to_multiset() == entries_view(old_rest).remove(0).to_multiset());
            assert(0 < entries_view(old_rest).len());
            vstd::seq_lib::to_multiset_remove(entries_view(old_rest), 0);
            assert(mo.insert(x).add(mr.remove(x)) =~= mo.add(mr));
            assert(entries_view(out@) == entries_view(old_out).insert(pos as int, entry_view(e)));
        }
    }
    proof {
        assert(entries_view(rest@) =~= Seq::<(Seq<char>, bool, u64)>::empty());
        assert(entries_view(rest@).to_multiset() =~= Multiset::empty());
        assert(entries_view(out@).to_multiset().add(Multiset::empty()) =~= entries_view(out@).to_multiset());
        assert forall|k: Seq<char>| #[trigger] with_key(entries_view(out@), k) == with_key(orig, k) by {
            assert(with_key(entries_view(rest@), k) == Seq::<(Seq<char>, bool, u64)>::empty());
            assert(with_key(entries_view(out@), k) + with_key(entries_view(rest@), k) =~= with_key(entries_view(out@), k));
        }
        let k = keys@.map_values(|k: Vec<char>| k@);
        let v = entries_view(out@);
        assert forall|i: int, j: int| 0 <= i < j < v.len() implies !text_before(
            lowercase(v[j].0),
            lowercase(v[i].0),
        ) by {
            assert(k[i] == lowercase(out@[i].name@));
            assert(k[j] == lowercase(out@[j].name@));
        }
    }
    out
}

/// Whether a row (as plain values) is a directory.
pub open spec fn is_dir_row() -> spec_fn((Seq<char>, bool, u64)) -> bool {
    |x: (Seq<char>, bool, u64)| x.1
}

/// Whether a row (as plain values) is a file.
pub open spec fn is_file_row() -> spec_fn((Seq<char>, bool, u64)) -> bool {
    |x: (Seq<char>, bool, u64)| !x.1
}

/// The rows above the listing: the sample file, then `..` below the root.
pub open spec fn top_rows(has_parent: bool) -> Seq<(Seq<char>, bool, u64)> {
    seq![("*sample"@, false, 256u64)] + if has_parent {
        seq![(".."@, true, 0u64)]
    } else {
        Seq::<(Seq<char>, bool, u64)>::empty()
    }
}

/// The rows of `listing` split into its directories and its files, each in
/// their order.
fn split_listing(listing: Vec<DirEntry>) -> (r: (Vec<DirEntry>, Vec<DirEntry>))
    ensures
        entries_view(r.0@) == entries_view(listing@).filter(is_dir_row()),
        entries_view(r.1@) == entries_view(listing@).filter(is_file_row()),
{
    let ghost orig = entries_view(listing@);
    let mut rest = listing;
    let mut dirs: Vec<DirEntry> = Vec::new();
    let mut files: Vec<DirEntry> = Vec::new();
    let ghost mut taken: int = 0;
    proof {
        assert(orig.take(0) =~= Seq::<(Seq<char>, bool, u64)>::empty());
        assert(entries_view(dirs@) =~= orig.take(0).filter(is_dir_row()));
        assert(entries_view(files@) =~= orig.take(0).filter(is_file_row()));
        assert(entries_view(rest@) =~= orig.skip(0));
    }
    while rest.len() > 0
        invariant
            0 <= taken <= orig.len(),
            entries_view(rest@) == orig.skip(taken),
            entries_view(dirs@) == orig.take(taken).filter(is_dir_row()),
            entries_view(files@) == orig.take(taken).filter(is_file_row()),
        decreases rest@.len(),
    {
        let ghost before_d = dirs@;
        let ghost before_f = files@;
        let ghost old_rest = rest@;
        let e = rest.remove(0);
        proof {
            assert(entries_view(old_rest)[0] == entry_view(e));
            assert(entries_view(old_rest).len() == old_rest.len());
            assert(orig.skip(taken).len() > 0);
            assert(taken < orig.len());
            assert(orig.skip(taken)[0] == entry_view(e));
            assert(orig[taken] == orig.skip(taken)[0]);
            assert(entries_view(rest@) =~= entries_view(old_rest).drop_first());
            assert(orig.take(taken + 1) =~= orig.take(taken).push(entry_view(e)));
            orig.take(taken).lemma_filter_push(entry_view(e), is_dir_row());
            orig.take(taken).lemma_filter_push(entry_view(e), is_file_row());
            assert(entries_view(rest@) =~= orig.skip(taken + 1));
        }
        if e.is_dir {
            dirs.push(e);
            proof {
                assert(entries_view(dirs@) =~= entries_view(before_d).push(entry_view(e)));
            }
        } else {
            files.push(e);
            proof {
                assert(entries_view(files@) =~= entries_view(before_f).push(entry_view(e)));
            }
        }
        proof {
            taken = taken + 1;
        }
    }
    proof {
        assert(orig.take(taken) =~= orig);
    }
    (dirs, files)
}

/// What choosing the cursor row leads to: nothing (no rows), writing and
/// opening the sample file, going up to the parent directory, entering the
/// subdirectory of that name, or opening the file of that name.
#[derive(Debug, Clone, Copy, PartialEq, Eq, Structural)]
pub enum BrowserPick {
    Nothing,
    Sample,
    Parent,
    Subdir,
    File,
}

/// The browser: the directory shown, its rows, the cursor row, the first
/// row on screen and the row last clicked.
pub struct FileBrowser {
    pub current_dir: PathBuf,
    pub entries: Vec<DirEntry>,
    pub cursor: usize,
    pub scroll_top: usize,
    pub last_click_idx: Option<usize>,
}

impl FileBrowser {
    /// Fills the list with `listing` (the rows read from the directory):
    /// the sample file first, `..` when the directory has a parent, then the
    /// directories and then the files, each sorted by lower-case name; the
    /// cursor and the view go to the top.
    pub fn set_listing(&mut self, has_parent: bool, listing: Vec<DirEntry>)
        ensures
            ({
                let v = entries_view(final(self).entries@);
                let t = top_rows(has_parent).len() as int;
                let d = entries_view(listing@).filter(is_dir_row());
                let f = entries_view(listing@).filter(is_file_row());
                let e = t + d.len() as int;
                &&& v.len() == e + f.len()
                &&& v.subrange(0, t) == top_rows(has_parent)
                &&& v.subrange(t, e).to_multiset() == d.to_multiset()
                &&& by_lower_name(v.subrange(t, e))
                &&& v.subrange(e, v.len() as int).to_multiset() == f.to_multiset()
                &&& by_lower_name(v.subrange(e, v.len() as int))
                &&& forall|k: Seq<char>| #[trigger] with_key(v.subrange(t, e), k) == with_key(d, k)
                &&& forall|k: Seq<char>| #[trigger] with_key(v.subrange(e, v.len() as int), k) == with_key(f, k)
            }),
            final(self).cursor == 0,
            final(self).scroll_top == 0,
            final(self).current_dir == old(self).current_dir,
            final(self).last_click_idx == old(self).last_click_idx,
    {
        broadcast use vstd::seq_lib::group_to_multiset_ensures;

        let (dirs, files) = split_listing(listing);
        let dirs = sort_by_lower_name(dirs);
        let files = sort_by_lower_name(files);
        let mut rows: Vec<DirEntry> = Vec::new();
        rows.push(DirEntry { name: String::from_str("*sample"), is_dir: false, size: 256 });
        if has_parent {
            rows.push(DirEntry { name: String::from_str(".."), is_dir: true, size: 0 });
        }
        proof {
            reveal_strlit("*sample");
            reveal_strlit("..");
            assert(entries_view(rows@) =~= top_rows(has_parent));
        }
        let ghost top = entries_view(rows@);
        let ghost dv = entries_view(dirs@);
        let ghost fv = entries_view(files@);
        proof {
            let d = entries_view(listing@).filter(is_dir_row());
            let f = entries_view(listing@).filter(is_file_row());
            assert(dv.to_multiset() == d.to_multiset());
            assert(dv.len() == d.len()) by {
                assert(dv.len() == dv.to_multiset().len());
                assert(d.len() == d.to_multiset().len());
            }
            assert(fv.len() == f.len()) by {
                assert(fv.len() == fv.to_multiset().len());
                assert(f.len() == f.to_multiset().len());
            }
        }
        let mut dirs = dirs;
        let mut files = files;
        rows.append(&mut dirs);
        rows.append(&mut files);
        proof {
            assert(entries_view(rows@) =~= top + dv + fv);
            let v = entries_view(rows@);
            assert(v.subrange(0, top.len() as int) =~= top);
            assert(v.subrange(top.len() as int, top.len() + dv.len() as int) =~= dv);
            assert(v.subrange(top.len() + dv.len() as int, v.len() as int) =~= fv);
        }
        self.entries = rows;
        self.cursor = 0;
        self.scroll_top = 0;
    }

    /// What choosing the cursor row leads to (see `BrowserPick`).
    pub fn pick(&self) -> (r: BrowserPick)
        requires
            self.entries@.len() > 0 ==> self.cursor < self.entries@.len(),
        ensures
            self.entries@.len() == 0 ==> r == BrowserPick::Nothing,
            self.entries@.len() > 0 ==> r == ({
                let e = self.entries@[self.cursor as int];
                if e.name@ == "*sample"@ {
                    BrowserPick::Sample
                } else if e.is_dir && e.name@ == ".."@ {
                    BrowserPick::Parent
                } else if e.is_dir {
                    BrowserPick::Subdir
                } else {
                    BrowserPick::File
                }
            }),
    {
        if self.entries.len() == 0 {
            return BrowserPick::Nothing;
        }
        let e = &self.entries[self.cursor];
        if same_text(e.name.as_str(), "*sample") {
            BrowserPick::Sample
        } else if e.is_dir && same_text(e.name.as_str(), "..") {
            BrowserPick::Parent
        } else if e.is_dir {
            BrowserPick::Subdir
        } else {
            BrowserPick::File
        }
    }

    /// A browser on `dir`, with no rows yet, the cursor and the view at the
    /// top.
    pub fn new(dir: PathBuf) -> (r: Self)
        ensures
            r.current_dir == dir,
            r.entries@.len() == 0,
            r.cursor == 0,
            r.scroll_top == 0,
            r.last_click_idx is None,
    {
        FileBrowser { current_dir: dir, entries: Vec::new(), cursor: 0, scroll_top: 0, last_click_idx: None }
    }

    /// Moves the cursor one row up, staying on the first row.
    pub fn move_up(&mut self)
        ensures
            *final(self) == (FileBrowser {
                cursor: if old(self).cursor > 0 {
                    (old(self).cursor - 1) as usize
                } else {
                    0
                },
                ..*old(self)
            }),
    {
        if self.cursor > 0 {
            self.cursor -= 1;
        }
    }

    /// Moves the cursor one row down, staying on the last row.
    pub fn move_down(&mut self)
        ensures
            *final(self) == (FileBrowser {
                cursor: if old(self).cursor + 1 < old(self).entries@.len() {
                    (old(self).cursor + 1) as usize
                } else {
                    old(self).cursor
                },
                ..*old(self)
            }),
    {
        if self.cursor < self.entries.len() && self.cursor + 1 < self.entries.len() {
            self.cursor += 1;
        }
    }

    /// Moves the cursor `page_size` rows up, stopping at the first row.
    pub fn page_up(&mut self, page_size: usize)
        ensures
            *final(self) == (FileBrowser {
                cursor: if old(self).cursor >= page_size {
                    (old(self).cursor - page_size) as usize
                } else {
                    0
                },
                ..*old(self)
            }),
    {
        self.cursor = self.cursor.saturating_sub(page_size);
    }

    /// Moves the cursor `page_size` rows down, stopping at the last row (row
    /// 0 when there are none).
    pub fn page_down(&mut self, page_size: usize)
        requires
            old(self).cursor + page_size <= usize::MAX,
        ensures
            ({
                let last = if old(self).entries@.len() > 0 {
                    old(self).entries@.len() - 1
                } else {
                    0
                };
                *final(self) == (FileBrowser {
                    cursor: if old(self).cursor + page_size <= last {
                        (old(self).cursor + page_size) as usize
                    } else {
                        last as usize
                    },
                    ..*old(self)
                })
            }),
    {
        let last = self.entries.len().saturating_sub(1);
        let target = self.cursor + page_size;
        self.cursor = if target < last {
            target
        } else {
            last
        };
    }

    /// Scrolls so that the cursor row is among the `max_rows` rows shown:
    /// up to it when it is above, so that it is the last row shown when it
    /// is below.
    pub fn ensure_visible(&mut self, max_rows: usize)
        requires
            old(self).scroll_top + max_rows <= usize::MAX,
            max_rows >= 1 || old(self).cursor < usize::MAX,
        ensures
            *final(self) == (FileBrowser {
                scroll_top: if old(self).cursor < old(self).scroll_top {
                    old(self).cursor
                } else if old(self).cursor >= old(self).scroll_top + max_rows {
                    (old(self).cursor - max_rows + 1) as usize
                } else {
                    old(self).scroll_top
                },
                ..*old(self)
            }),
    {
        if self.cursor < self.scroll_top {
            self.scroll_top = self.cursor;
        } else if self.cursor >= self.scroll_top + max_rows {
            self.scroll_top = self.cursor - max_rows + 1;
        }
    }
}

} // verus!
