//! Canonical on-disk naming for page files.
//!
//! Every stored page lives at
//! `./data/<document_number>/<reference_number>/<document_number>_<reference_number>_<index>.png`
//! with a 1-based page index.  The functions here are pure: the same inputs
//! always give the same path, which lets the synchronizer predict paths
//! before any file is written.

use vstd::prelude::*;

verus! {

/// The canonical decimal digit for a value below ten.
pub open spec fn digit_char(d: nat) -> char {
    if d == 0 {
        '0'
    } else if d == 1 {
        '1'
    } else if d == 2 {
        '2'
    } else if d == 3 {
        '3'
    } else if d == 4 {
        '4'
    } else if d == 5 {
        '5'
    } else if d == 6 {
        '6'
    } else if d == 7 {
        '7'
    } else if d == 8 {
        '8'
    } else {
        '9'
    }
}

/// Inverse of `digit_char` on the ten digit characters.
pub open spec fn digit_val(c: char) -> nat {
    if c == '0' {
        0
    } else if c == '1' {
        1
    } else if c == '2' {
        2
    } else if c == '3' {
        3
    } else if c == '4' {
        4
    } else if c == '5' {
        5
    } else if c == '6' {
        6
    } else if c == '7' {
        7
    } else if c == '8' {
        8
    } else {
        9
    }
}

proof fn lemma_digit_char_invertible(d: nat)
    requires
        d < 10,
    ensures
        digit_val(digit_char(d)) == d,
{
}

/// Decimal digit sequence of `n`, most significant digit first, without
/// leading zeros.
pub open spec fn dec_digits(n: nat) -> Seq<char>
    decreases n,
{
    if n < 10 {
        seq![digit_char(n)]
    } else {
        dec_digits(n / 10).push(digit_char(n % 10))
    }
}

fn digit_str(d: u32) -> (r: &'static str)
    requires
        d < 10,
    ensures
        r@ == seq![digit_char(d as nat)],
{
    proof {
        reveal_strlit("0");
        reveal_strlit("1");
        reveal_strlit("2");
        reveal_strlit("3");
        reveal_strlit("4");
        reveal_strlit("5");
        reveal_strlit("6");
        reveal_strlit("7");
        reveal_strlit("8");
        reveal_strlit("9");
    }
    let r = if d == 0 {
        "0"
    } else if d == 1 {
        "1"
    } else if d == 2 {
        "2"
    } else if d == 3 {
        "3"
    } else if d == 4 {
        "4"
    } else if d == 5 {
        "5"
    } else if d == 6 {
        "6"
    } else if d == 7 {
        "7"
    } else if d == 8 {
        "8"
    } else {
        "9"
    };
    proof {
        assert(r@ =~= seq![digit_char(d as nat)]);
    }
    r
}

/// Renders `n` in decimal, exactly as `dec_digits` describes it.
pub fn u32_to_string(n: u32) -> (r: String)
    ensures
        r@ == dec_digits(n as nat),
    decreases n,
{
    if n < 10 {
        let r = String::from_str(digit_str(n));
        proof {
            assert(r@ =~= dec_digits(n as nat));
        }
        r
    } else {
        let p = u32_to_string(n / 10);
        let r = p.concat(digit_str(n % 10));
        proof {
            assert(r@ =~= dec_digits(n as nat));
        }
        r
    }
}

/// Directory that holds everything belonging to one document.
pub open spec fn spec_document_dir(doc: Seq<char>) -> Seq<char> {
    "./data/"@ + doc
}

/// Directory that holds one attachment's page files.
pub open spec fn spec_attachment_dir(doc: Seq<char>, refn: Seq<char>) -> Seq<char> {
    spec_document_dir(doc) + "/"@ + refn
}

/// Everything of a page path that comes before the decimal index.
pub open spec fn spec_page_prefix(doc: Seq<char>, refn: Seq<char>) -> Seq<char> {
    spec_attachment_dir(doc, refn) + "/"@ + doc + "_"@ + refn + "_"@
}

/// Canonical path of page `index` (1-based) of the attachment named by
/// `refn` under the document named by `doc`.
pub open spec fn spec_page_path(doc: Seq<char>, refn: Seq<char>, index: u32) -> Seq<char> {
    spec_page_prefix(doc, refn) + dec_digits(index as nat) + ".png"@
}

/// A usable name component: non-empty and free of path separators.
pub open spec fn valid_name(s: Seq<char>) -> bool {
    s.len() > 0 && forall|k: int| 0 <= k < s.len() ==> s[k] != '/'
}

/// Checks `valid_name` on a real string.
pub fn is_valid_name(s: &str) -> (b: bool)
    ensures
        b == valid_name(s@),
{
    let n = s.unicode_len();
    if n == 0 {
        return false;
    }
    let mut k: usize = 0;
    while k < n
        invariant
            0 <= k <= n,
            n == s@.len(),
            forall|m: int| 0 <= m < k ==> s@[m] != '/',
        decreases n - k,
    {
        if s.get_char(k) == '/' {
            return false;
        }
        k = k + 1;
    }
    true
}

/// Builds `./data/<doc>`.
pub fn document_dir(doc: &str) -> (r: String)
    ensures
        r@ == spec_document_dir(doc@),
{
    let mut s = String::from_str("./data/");
    s.append(doc);
    s
}

/// Builds `./data/<doc>/<refn>`.
pub fn attachment_dir(doc: &str, refn: &str) -> (r: String)
    ensures
        r@ == spec_attachment_dir(doc@, refn@),
{
    let mut s = document_dir(doc);
    s.append("/");
    s.append(refn);
    proof {
        assert(s@ =~= spec_attachment_dir(doc@, refn@));
    }
    s
}

/// Builds the canonical page path.  Pure: equal inputs always yield the
/// same path, byte for byte.
pub fn page_file_path(doc: &str, refn: &str, index: u32) -> (r: String)
    ensures
        r@ == spec_page_path(doc@, refn@, index),
{
    let digits = u32_to_string(index);
    let mut s = attachment_dir(doc, refn);
    s.append("/");
    s.append(doc);
    s.append("_");
    s.append(refn);
    s.append("_");
    s.append(digits.as_str());
    s.append(".png");
    proof {
        assert(s@ =~= spec_page_path(doc@, refn@, index));
    }
    s
}

proof fn lemma_dec_digits_nonempty(n: nat)
    ensures
        dec_digits(n).len() >= 1,
    decreases n,
{
    if n >= 10 {
        lemma_dec_digits_nonempty(n / 10);
    }
}

proof fn lemma_dec_digits_injective(a: nat, b: nat)
    requires
        dec_digits(a) == dec_digits(b),
    ensures
        a == b,
    decreases a,
{
    if a < 10 && b < 10 {
        assert(dec_digits(a) == seq![digit_char(a)]);
        assert(dec_digits(b) == seq![digit_char(b)]);
        assert(digit_char(a) == dec_digits(a)[0]);
        assert(digit_char(b) == dec_digits(b)[0]);
        lemma_digit_char_invertible(a);
        lemma_digit_char_invertible(b);
        assert(digit_val(digit_char(a)) == digit_val(digit_char(b)));
    } else if a < 10 {
        lemma_dec_digits_nonempty(b / 10);
        assert(dec_digits(b).len() >= 2);
        assert(false);
    } else if b < 10 {
        lemma_dec_digits_nonempty(a / 10);
        assert(dec_digits(a).len() >= 2);
        assert(false);
    } else {
        assert(dec_digits(a).last() == digit_char(a % 10));
        assert(dec_digits(b).last() == digit_char(b % 10));
        lemma_digit_char_invertible(a % 10);
        lemma_digit_char_invertible(b % 10);
        assert(a % 10 == b % 10);
        assert(dec_digits(a).drop_last() =~= dec_digits(a / 10));
        assert(dec_digits(b).drop_last() =~= dec_digits(b / 10));
        lemma_dec_digits_injective(a / 10, b / 10);
        vstd::arithmetic::div_mod::lemma_fundamental_div_mod(a as int, 10);
        vstd::arithmetic::div_mod::lemma_fundamental_div_mod(b as int, 10);
    }
}

/// Law: for a fixed document number and reference number, the canonical
/// page path determines the page index — two distinct indices can never
/// collide on one file.
pub proof fn lemma_page_path_injective_in_index(doc: Seq<char>, refn: Seq<char>, i: u32, j: u32)
    requires
        spec_page_path(doc, refn, i) == spec_page_path(doc, refn, j),
    ensures
        i == j,
{
    let p = spec_page_prefix(doc, refn);
    let di = dec_digits(i as nat);
    let dj = dec_digits(j as nat);
    let si = spec_page_path(doc, refn, i);
    let sj = spec_page_path(doc, refn, j);
    assert(si.len() == p.len() + di.len() + ".png"@.len());
    assert(sj.len() == p.len() + dj.len() + ".png"@.len());
    assert(di.len() == dj.len());
    assert forall|k: int| 0 <= k < di.len() implies di[k] == dj[k] by {
        assert(si[p.len() + k] == di[k]);
        assert(sj[p.len() + k] == dj[k]);
    }
    assert(di =~= dj);
    lemma_dec_digits_injective(i as nat, j as nat);
}


/// The page path, re-grouped as document directory, then slash, then the
/// reference segment, then slash, then the file name.
pub open spec fn spec_page_tail(doc: Seq<char>, refn: Seq<char>, index: u32) -> Seq<char> {
    doc + "_"@ + refn + "_"@ + dec_digits(index as nat) + ".png"@
}

proof fn lemma_page_path_regroup(doc: Seq<char>, refn: Seq<char>, index: u32)
    ensures
        spec_page_path(doc, refn, index) == (spec_document_dir(doc) + "/"@) + refn + ("/"@
            + spec_page_tail(doc, refn, index)),
{
    assert(spec_page_path(doc, refn, index) =~= (spec_document_dir(doc) + "/"@) + refn + ("/"@
        + spec_page_tail(doc, refn, index)));
}

/// Every page file of an attachment lies below that attachment's
/// directory.
pub proof fn lemma_page_path_under_att_dir(doc: Seq<char>, refn: Seq<char>, index: u32)
    ensures
        crate::fs_state::under_dir(
            spec_attachment_dir(doc, refn),
            spec_page_path(doc, refn, index),
        ),
{
    let dir = spec_attachment_dir(doc, refn);
    let tail = spec_page_tail(doc, refn, index);
    assert(spec_page_path(doc, refn, index) =~= (dir + "/"@) + tail);
    crate::fs_state::lemma_prefix_of_concat(dir + "/"@, tail);
}

/// Every page file of a document's attachments lies below the document's
/// directory, as does each attachment directory.
pub proof fn lemma_paths_under_doc_dir(doc: Seq<char>, refn: Seq<char>, index: u32)
    ensures
        crate::fs_state::under_dir(spec_document_dir(doc), spec_page_path(doc, refn, index)),
        crate::fs_state::under_dir(spec_document_dir(doc), spec_attachment_dir(doc, refn)),
{
    let d = spec_document_dir(doc);
    assert(spec_attachment_dir(doc, refn) =~= (d + "/"@) + refn);
    crate::fs_state::lemma_prefix_of_concat(d + "/"@, refn);
    let rest = refn + ("/"@ + spec_page_tail(doc, refn, index));
    lemma_page_path_regroup(doc, refn, index);
    assert(spec_page_path(doc, refn, index) =~= (d + "/"@) + rest);
    crate::fs_state::lemma_prefix_of_concat(d + "/"@, rest);
}

/// Two attachments of one document with different reference numbers own
/// disjoint slices of the tree: their directories differ, neither
/// directory sits below the other, and no page file of one lies below
/// the directory of the other.
pub proof fn lemma_ref_separation(doc: Seq<char>, r1: Seq<char>, r2: Seq<char>)
    requires
        valid_name(r1),
        valid_name(r2),
        r1 != r2,
    ensures
        spec_attachment_dir(doc, r1) != spec_attachment_dir(doc, r2),
        !crate::fs_state::under_dir(
            spec_attachment_dir(doc, r1),
            spec_attachment_dir(doc, r2),
        ),
        forall|j: u32|
            !crate::fs_state::under_dir(
                spec_attachment_dir(doc, r1),
                #[trigger] spec_page_path(doc, r2, j),
            ),
{
    reveal_strlit("/");
    let d = spec_document_dir(doc);
    let pre = d + "/"@;
    let ell = pre.len() as int;
    assert("/"@.len() == 1);
    assert("/"@[0] == '/');
    let dir1 = spec_attachment_dir(doc, r1);
    let dir2 = spec_attachment_dir(doc, r2);
    assert(dir1 =~= pre + r1);
    assert(dir2 =~= pre + r2);
    assert(dir1 + "/"@ =~= pre + r1 + "/"@);

    if dir1 == dir2 {
        assert(r1.len() == r2.len());
        assert forall|k: int| 0 <= k < r1.len() implies r1[k] == r2[k] by {
            assert(dir1[ell + k] == r1[k]);
            assert(dir2[ell + k] == r2[k]);
        }
        assert(r1 =~= r2);
    }

    if crate::fs_state::under_dir(dir1, dir2) {
        assert(dir2.subrange(0, ell + r1.len() + 1) == dir1 + "/"@);
        assert(r1.len() + 1 <= r2.len());
        assert(dir2[ell + r1.len()] == (dir1 + "/"@)[ell + r1.len()]);
        assert((dir1 + "/"@)[ell + r1.len()] == '/');
        assert(dir2[ell + r1.len()] == r2[r1.len() as int]);
        assert(false);
    }

    assert forall|j: u32|
        !crate::fs_state::under_dir(dir1, #[trigger] spec_page_path(doc, r2, j)) by {
        lemma_page_path_regroup(doc, r2, j);
        let tail2 = "/"@ + spec_page_tail(doc, r2, j);
        let s2 = spec_page_path(doc, r2, j);
        assert(s2 =~= pre + r2 + tail2);
        if crate::fs_state::under_dir(dir1, s2) {
            assert(s2.subrange(0, ell + r1.len() + 1) == dir1 + "/"@);
            if r1.len() < r2.len() {
                assert(s2[ell + r1.len()] == (dir1 + "/"@)[ell + r1.len()]);
                assert((dir1 + "/"@)[ell + r1.len()] == '/');
                assert(s2[ell + r1.len()] == r2[r1.len() as int]);
                assert(false);
            } else if r1.len() == r2.len() {
                assert forall|k: int| 0 <= k < r1.len() implies r1[k] == r2[k] by {
                    assert(s2[ell + k] == (dir1 + "/"@)[ell + k]);
                    assert((dir1 + "/"@)[ell + k] == r1[k]);
                    assert(s2[ell + k] == r2[k]);
                }
                assert(r1 =~= r2);
                assert(false);
            } else {
                assert(s2[ell + r2.len()] == (dir1 + "/"@)[ell + r2.len()]);
                assert((dir1 + "/"@)[ell + r2.len()] == r1[r2.len() as int]);
                assert(s2[ell + r2.len()] == tail2[0]);
                assert(tail2[0] == '/');
                assert(false);
            }
        }
    }
}

/// Two different document numbers own disjoint slices of the tree: their
/// directories differ, neither sits below the other, and no attachment
/// directory or page file of one document lies below the other's
/// directory.
pub proof fn lemma_doc_separation(d1: Seq<char>, d2: Seq<char>)
    requires
        valid_name(d1),
        valid_name(d2),
        d1 != d2,
    ensures
        spec_document_dir(d1) != spec_document_dir(d2),
        !crate::fs_state::under_dir(spec_document_dir(d1), spec_document_dir(d2)),
        forall|r: Seq<char>|
            !crate::fs_state::under_dir(
                spec_document_dir(d1),
                #[trigger] spec_attachment_dir(d2, r),
            ),
        forall|r: Seq<char>, j: u32|
            !crate::fs_state::under_dir(
                spec_document_dir(d1),
                #[trigger] spec_page_path(d2, r, j),
            ),
{
    reveal_strlit("/");
    reveal_strlit("./data/");
    let root = "./data/"@;
    let ell = root.len() as int;
    let dir1 = spec_document_dir(d1);
    let dir2 = spec_document_dir(d2);
    assert("/"@.len() == 1);
    assert("/"@[0] == '/');
    assert(dir1 + "/"@ =~= root + d1 + "/"@);

    if dir1 == dir2 {
        assert(d1.len() == d2.len());
        assert forall|k: int| 0 <= k < d1.len() implies d1[k] == d2[k] by {
            assert(dir1[ell + k] == d1[k]);
            assert(dir2[ell + k] == d2[k]);
        }
        assert(d1 =~= d2);
    }

    if crate::fs_state::under_dir(dir1, dir2) {
        assert(dir2.subrange(0, ell + d1.len() + 1) == dir1 + "/"@);
        assert(d1.len() + 1 <= d2.len());
        assert(dir2[ell + d1.len()] == (dir1 + "/"@)[ell + d1.len()]);
        assert((dir1 + "/"@)[ell + d1.len()] == '/');
        assert(dir2[ell + d1.len()] == d2[d1.len() as int]);
        assert(false);
    }

    assert forall|r: Seq<char>|
        !crate::fs_state::under_dir(
            spec_document_dir(d1),
            #[trigger] spec_attachment_dir(d2, r),
        ) by {
        let s2 = spec_attachment_dir(d2, r);
        let tail = "/"@ + r;
        assert(s2 =~= root + d2 + tail);
        lemma_doc_segment_mismatch(d1, d2, tail);
    }
    assert forall|r: Seq<char>, j: u32|
        !crate::fs_state::under_dir(spec_document_dir(d1), #[trigger] spec_page_path(d2, r, j)) by {
        lemma_page_path_regroup(d2, r, j);
        let tail = "/"@ + (r + ("/"@ + spec_page_tail(d2, r, j)));
        let s2 = spec_page_path(d2, r, j);
        assert(s2 =~= root + d2 + tail);
        lemma_doc_segment_mismatch(d1, d2, tail);
    }
}

/// No string of the form `./data/<d2><tail>` — with `tail` starting in a
/// separator — lies below `./data/<d1>` when the names differ.
proof fn lemma_doc_segment_mismatch(d1: Seq<char>, d2: Seq<char>, tail: Seq<char>)
    requires
        valid_name(d1),
        valid_name(d2),
        d1 != d2,
        tail.len() > 0,
        tail[0] == '/',
    ensures
        !crate::fs_state::under_dir(spec_document_dir(d1), "./data/"@ + d2 + tail),
{
    reveal_strlit("/");
    reveal_strlit("./data/");
    let root = "./data/"@;
    let ell = root.len() as int;
    let dir1 = spec_document_dir(d1);
    let s2 = root + d2 + tail;
    assert(dir1 + "/"@ =~= root + d1 + "/"@);
    if crate::fs_state::under_dir(dir1, s2) {
        assert(s2.subrange(0, ell + d1.len() + 1) == dir1 + "/"@);
        if d1.len() < d2.len() {
            assert(s2[ell + d1.len()] == (dir1 + "/"@)[ell + d1.len()]);
            assert((dir1 + "/"@)[ell + d1.len()] == '/');
            assert(s2[ell + d1.len()] == d2[d1.len() as int]);
            assert(false);
        } else if d1.len() == d2.len() {
            assert forall|k: int| 0 <= k < d1.len() implies d1[k] == d2[k] by {
                assert(s2[ell + k] == (dir1 + "/"@)[ell + k]);
                assert((dir1 + "/"@)[ell + k] == d1[k]);
                assert(s2[ell + k] == d2[k]);
            }
            assert(d1 =~= d2);
            assert(false);
        } else {
            assert(s2[ell + d2.len()] == (dir1 + "/"@)[ell + d2.len()]);
            assert((dir1 + "/"@)[ell + d2.len()] == d1[d2.len() as int]);
            assert(s2[ell + d2.len()] == tail[0]);
            assert(false);
        }
    }
}

/// A path below one document's directory is below no other document's
/// directory.
pub proof fn lemma_doc_dirs_disjoint(d1: Seq<char>, d2: Seq<char>)
    requires
        valid_name(d1),
        valid_name(d2),
        d1 != d2,
    ensures
        forall|q: Seq<char>|
            crate::fs_state::under_dir(spec_document_dir(d1), q)
                ==> !#[trigger] crate::fs_state::under_dir(spec_document_dir(d2), q),
{
    reveal_strlit("/");
    reveal_strlit("./data/");
    let root = "./data/"@;
    let ell = root.len() as int;
    let dir1 = spec_document_dir(d1);
    let dir2 = spec_document_dir(d2);
    assert("/"@.len() == 1);
    assert("/"@[0] == '/');
    assert(dir1 + "/"@ =~= root + d1 + "/"@);
    assert(dir2 + "/"@ =~= root + d2 + "/"@);
    assert forall|q: Seq<char>|
        crate::fs_state::under_dir(dir1, q) implies !#[trigger] crate::fs_state::under_dir(
        dir2,
        q,
    ) by {
        if crate::fs_state::under_dir(dir2, q) {
            assert(q.subrange(0, ell + d1.len() + 1) == dir1 + "/"@);
            assert(q.subrange(0, ell + d2.len() + 1) == dir2 + "/"@);
            if d1.len() < d2.len() {
                assert(q[ell + d1.len()] == (dir1 + "/"@)[ell + d1.len()]);
                assert((dir1 + "/"@)[ell + d1.len()] == '/');
                assert(q[ell + d1.len()] == (dir2 + "/"@)[ell + d1.len()]);
                assert((dir2 + "/"@)[ell + d1.len()] == d2[d1.len() as int]);
                assert(false);
            } else if d1.len() == d2.len() {
                assert forall|k: int| 0 <= k < d1.len() implies d1[k] == d2[k] by {
                    assert(q[ell + k] == (dir1 + "/"@)[ell + k]);
                    assert((dir1 + "/"@)[ell + k] == d1[k]);
                    assert(q[ell + k] == (dir2 + "/"@)[ell + k]);
                    assert((dir2 + "/"@)[ell + k] == d2[k]);
                }
                assert(d1 =~= d2);
                assert(false);
            } else {
                assert(q[ell + d2.len()] == (dir2 + "/"@)[ell + d2.len()]);
                assert((dir2 + "/"@)[ell + d2.len()] == '/');
                assert(q[ell + d2.len()] == (dir1 + "/"@)[ell + d2.len()]);
                assert((dir1 + "/"@)[ell + d2.len()] == d1[d2.len() as int]);
                assert(false);
            }
        }
    }
}

} // verus!
