//! Properties of the path labelling that hold over any sequence of requests.

use vstd::prelude::*;
use vstd::utf8::*;
use crate::middleware::{
    byte_len, ellipsis, floor_boundary, is_floor_boundary, other_label, run, truncated_path_label,
    unlabelled_path, LabelState, KEPT_PATH_BYTES, MAX_PATH_LABEL_BYTES,
};

verus! {

broadcast use vstd::utf8::encode_utf8_valid_utf8, vstd::utf8::encode_utf8_decode_utf8;

/// Labelling keeps the invariant, never forgets an admitted label, and with
/// path labelling enabled gives each path either an admitted label or
/// "<other>".
proof fn lemma_step(s: LabelState, path: Seq<char>)
    requires
        s.wf(),
    ensures
        s.step(path).0.wf(),
        s.step(path).0.include_path == s.include_path,
        s.step(path).0.cap == s.cap,
        s.seen.is_prefix_of(s.step(path).0.seen),
        s.include_path ==> (s.step(path).1 == other_label() || s.step(path).0.seen.contains(
            s.step(path).1,
        )),
        !s.include_path ==> s.step(path) == (s, unlabelled_path()),
{
    let (t, l) = s.step(path);
    assert(s.seen.is_prefix_of(t.seen)) by {
        if t.seen.len() > s.seen.len() {
            assert(t.seen == s.seen.push(truncated_path_label(path)));
        }
    }
    if s.include_path && l != other_label() {
        if !s.seen.contains(l) {
            assert(t.seen.last() == l);
        }
    }
}

proof fn lemma_run(s: LabelState, paths: Seq<Seq<char>>)
    requires
        s.wf(),
    ensures
        run(s, paths).0.wf(),
        run(s, paths).0.include_path == s.include_path,
        run(s, paths).0.cap == s.cap,
        run(s, paths).1.len() == paths.len(),
        s.seen.is_prefix_of(run(s, paths).0.seen),
        s.include_path ==> forall|i: int|
            0 <= i < paths.len() ==> run(s, paths).1[i] == other_label() || run(
                s,
                paths,
            ).0.seen.contains(#[trigger] run(s, paths).1[i]),
        !s.include_path ==> run(s, paths).0 == s,
        !s.include_path ==> forall|i: int|
            0 <= i < paths.len() ==> #[trigger] run(s, paths).1[i] == unlabelled_path(),
    decreases paths.len(),
{
    if paths.len() > 0 {
        let (mid, labels) = run(s, paths.drop_last());
        lemma_run(s, paths.drop_last());
        lemma_step(mid, paths.last());
        let (fin, all) = run(s, paths);
        assert(all == labels.push(mid.step(paths.last()).1));
        if s.include_path {
            assert forall|i: int| 0 <= i < paths.len() implies all[i] == other_label()
                || fin.seen.contains(#[trigger] all[i]) by {
                if i < paths.len() - 1 {
                    assert(all[i] == labels[i]);
                    if all[i] != other_label() {
                        let k = choose|k: int| 0 <= k < mid.seen.len() && mid.seen[k] == all[i];
                        assert(fin.seen[k] == all[i]);
                    }
                }
            }
        }
    }
}

/// However many requests arrive, an instance hands out at most `cap + 1`
/// distinct path labels: the admitted paths and "<other>".
pub proof fn law_distinct_path_labels_bounded(s: LabelState, paths: Seq<Seq<char>>)
    requires
        s.wf(),
    ensures
        run(s, paths).1.to_set().len() <= s.cap + 1,
{
    lemma_run(s, paths);
    let (fin, labels) = run(s, paths);
    fin.seen.unique_seq_to_set();
    if s.include_path {
        let allowed = fin.seen.to_set().insert(other_label());
        assert(labels.to_set().subset_of(allowed)) by {
            assert forall|l: Seq<char>| labels.to_set().contains(l) implies allowed.contains(l) by {
                let i = choose|i: int| 0 <= i < labels.len() && labels[i] == l;
                assert(labels[i] == other_label() || fin.seen.contains(labels[i]));
            }
        }
        vstd::set_lib::lemma_len_subset(labels.to_set(), allowed);
    } else {
        let allowed = Set::<Seq<char>>::empty().insert(unlabelled_path());
        assert(labels.to_set().subset_of(allowed)) by {
            assert forall|l: Seq<char>| labels.to_set().contains(l) implies allowed.contains(l) by {
                let i = choose|i: int| 0 <= i < labels.len() && labels[i] == l;
                assert(labels[i] == unlabelled_path());
            }
        }
        vstd::set_lib::lemma_len_subset(labels.to_set(), allowed);
    }
}

/// With path labelling disabled every request is labelled "/" and the
/// instance never changes.
pub proof fn law_disabled_labels_everything_root(s: LabelState, paths: Seq<Seq<char>>)
    requires
        s.wf(),
        !s.include_path,
    ensures
        run(s, paths).0 == s,
        forall|i: int| 0 <= i < paths.len() ==> #[trigger] run(s, paths).1[i] == unlabelled_path(),
{
    lemma_run(s, paths);
}

/// The label a path has against the final set of admitted labels.
spec fn settled_label(fin: LabelState, path: Seq<char>) -> Seq<char> {
    if fin.seen.contains(truncated_path_label(path)) {
        truncated_path_label(path)
    } else {
        other_label()
    }
}

proof fn lemma_run_settled(s: LabelState, paths: Seq<Seq<char>>)
    requires
        s.wf(),
        s.include_path,
    ensures
        forall|i: int|
            0 <= i < paths.len() ==> run(s, paths).0.seen.contains(
                truncated_path_label(#[trigger] paths[i]),
            ) || run(s, paths).0.seen.len() == s.cap,
        forall|i: int|
            0 <= i < paths.len() ==> #[trigger] run(s, paths).1[i] == settled_label(
                run(s, paths).0,
                paths[i],
            ),
    decreases paths.len(),
{
    lemma_run(s, paths);
    if paths.len() > 0 {
        let front = paths.drop_last();
        let (mid, labels) = run(s, front);
        lemma_run(s, front);
        lemma_run_settled(s, front);
        let p = paths.last();
        let (fin, all) = run(s, paths);
        lemma_step(mid, p);
        assert(fin == mid.step(p).0);
        assert(all == labels.push(mid.step(p).1));
        if mid.seen.len() == s.cap {
            assert(fin == mid);
        }
        assert forall|i: int| 0 <= i < paths.len() implies fin.seen.contains(
            truncated_path_label(#[trigger] paths[i]),
        ) || fin.seen.len() == s.cap by {
            if i < paths.len() - 1 {
                assert(paths[i] == front[i]);
                if mid.seen.contains(truncated_path_label(paths[i])) {
                    let k = choose|k: int|
                        0 <= k < mid.seen.len() && mid.seen[k] == truncated_path_label(paths[i]);
                    assert(fin.seen[k] == mid.seen[k]);
                }
            } else {
                if !mid.seen.contains(truncated_path_label(p)) && mid.seen.len() < s.cap {
                    assert(fin.seen.last() == truncated_path_label(p));
                }
            }
        }
        assert forall|i: int| 0 <= i < paths.len() implies #[trigger] all[i] == settled_label(
            fin,
            paths[i],
        ) by {
            if i < paths.len() - 1 {
                assert(paths[i] == front[i]);
                assert(all[i] == labels[i]);
                let t = truncated_path_label(paths[i]);
                if mid.seen.contains(t) {
                    let k = choose|k: int| 0 <= k < mid.seen.len() && mid.seen[k] == t;
                    assert(fin.seen[k] == mid.seen[k]);
                }
            } else {
                let t = truncated_path_label(p);
                if !mid.seen.contains(t) && mid.seen.len() < s.cap {
                    assert(fin.seen.last() == t);
                }
            }
        }
    }
}

/// One instance always gives the same path the same label: a repeat of an
/// admitted path keeps its label, and a path folded into "<other>" stays
/// folded.
pub proof fn law_path_label_is_stable(s: LabelState, paths: Seq<Seq<char>>, i: int, j: int)
    requires
        s.wf(),
        0 <= i < paths.len(),
        0 <= j < paths.len(),
        paths[i] == paths[j],
    ensures
        run(s, paths).1[i] == run(s, paths).1[j],
{
    lemma_run(s, paths);
    if s.include_path {
        lemma_run_settled(s, paths);
    }
}

proof fn lemma_encode_utf8_concat(a: Seq<char>, b: Seq<char>)
    ensures
        encode_utf8(a + b) == encode_utf8(a) + encode_utf8(b),
    decreases a.len(),
{
    if a.len() == 0 {
        assert(a + b =~= b);
    } else {
        lemma_encode_utf8_concat(a.drop_first(), b);
        assert((a + b).drop_first() =~= a.drop_first() + b);
        assert(encode_utf8(a) + encode_utf8(b) =~= encode_scalar(a[0] as u32) + (encode_utf8(
            a.drop_first(),
        ) + encode_utf8(b)));
    }
}

/// A path label is never longer than 100 bytes. A path longer than that is
/// labelled by a prefix of it that is at most 97 bytes long, followed by
/// "..."; a shorter path is its own label.
pub proof fn law_path_label_is_bounded(path: Seq<char>)
    ensures
        byte_len(truncated_path_label(path)) <= MAX_PATH_LABEL_BYTES,
        byte_len(path) <= MAX_PATH_LABEL_BYTES ==> truncated_path_label(path) == path,
        byte_len(path) > MAX_PATH_LABEL_BYTES ==> exists|k: int|
            0 <= k <= path.len() && byte_len(path.take(k)) <= KEPT_PATH_BYTES
                && truncated_path_label(path) == path.take(k) + ellipsis(),
{
    let bytes = encode_utf8(path);
    if bytes.len() > MAX_PATH_LABEL_BYTES {
        let limit = KEPT_PATH_BYTES as int;
        assert(is_char_boundary(bytes, 0));
        assert(is_floor_boundary(bytes, limit, floor_boundary(bytes, limit))) by {
            // a largest boundary exists: walk down from the limit
            lemma_floor_boundary_exists(bytes, limit, limit);
        }
        let e = floor_boundary(bytes, limit);
        let head_bytes = bytes.subrange(0, e);
        let head = decode_utf8(head_bytes);
        valid_utf8_split(bytes, e);
        decode_utf8_split(bytes, e);
        decode_utf8_encode_utf8(head_bytes);
        assert(path == head + decode_utf8(bytes.subrange(e, bytes.len() as int)));
        let k = head.len() as int;
        assert(path.take(k) =~= head);
        lemma_encode_utf8_concat(head, ellipsis());
        reveal_with_fuel(encode_utf8, 4);
        assert(encode_utf8(ellipsis()).len() == 3) by {
            assert(ellipsis().drop_first() =~= seq!['.', '.']);
            assert(ellipsis().drop_first().drop_first() =~= seq!['.']);
            assert(ellipsis().drop_first().drop_first().drop_first() =~= Seq::<char>::empty());
        }
    }
}

proof fn lemma_floor_boundary_exists(bytes: Seq<u8>, limit: int, e: int)
    requires
        valid_utf8(bytes),
        0 <= e <= limit,
        forall|k: int| e < k <= limit ==> !is_char_boundary(bytes, k),
    ensures
        is_floor_boundary(bytes, limit, floor_boundary(bytes, limit)),
    decreases e,
{
    if is_char_boundary(bytes, e) {
        assert(is_floor_boundary(bytes, limit, e));
    } else {
        assert(e != 0);
        lemma_floor_boundary_exists(bytes, limit, e - 1);
    }
}

} // verus!
