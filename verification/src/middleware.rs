//! Labelling rules of the HTTP request instrumentation.
//!
//! Prometheus keeps one time series per distinct combination of label values,
//! and the instrumentation only sees the concrete request path, not the route
//! template. Labelling by raw path would let a client mint unbounded series, so
//! path labels are off by default; when enabled, each path is cut to a bounded
//! byte length and the number of distinct path labels an instance emits is
//! capped, every further path being folded into [`OTHER_PATH_LABEL`].

use vstd::prelude::*;
use vstd::string::*;
use vstd::utf8::*;

verus! {

broadcast use vstd::utf8::encode_utf8_valid_utf8, vstd::utf8::encode_utf8_decode_utf8;

/// Default upper bound on the number of distinct `path` label values a single
/// middleware instance emits when path labelling is enabled.
pub const DEFAULT_PATH_CARDINALITY_CAP: usize = 1000;

/// Label value for paths beyond the cardinality cap.
pub const OTHER_PATH_LABEL: &'static str = "<other>";

/// Label value for every path while path labelling is disabled.
pub const UNLABELLED_PATH: &'static str = "/";

/// Paths longer than this many bytes are cut.
pub const MAX_PATH_LABEL_BYTES: usize = 100;

/// A cut path keeps at most this many of its leading bytes, then "...".
pub const KEPT_PATH_BYTES: usize = 97;

/// The characters of [`OTHER_PATH_LABEL`].
pub open spec fn other_label() -> Seq<char> {
    seq!['<', 'o', 't', 'h', 'e', 'r', '>']
}

/// The characters of [`UNLABELLED_PATH`].
pub open spec fn unlabelled_path() -> Seq<char> {
    seq!['/']
}

/// What follows a cut path.
pub open spec fn ellipsis() -> Seq<char> {
    seq!['.', '.', '.']
}

/// Number of bytes of the UTF-8 encoding of `s`, as `str::len` counts them.
pub open spec fn byte_len(s: Seq<char>) -> nat {
    encode_utf8(s).len()
}

/// `e` is the largest character boundary of `bytes` that is at most `limit`.
pub open spec fn is_floor_boundary(bytes: Seq<u8>, limit: int, e: int) -> bool {
    &&& 0 <= e <= limit
    &&& is_char_boundary(bytes, e)
    &&& forall|k: int| e < k <= limit ==> !is_char_boundary(bytes, k)
}

/// The largest character boundary of `bytes` at or below `limit`.
pub open spec fn floor_boundary(bytes: Seq<u8>, limit: int) -> int {
    choose|e: int| is_floor_boundary(bytes, limit, e)
}

/// The label a path gets before the cardinality bound applies: the path itself
/// when its encoding is at most 100 bytes; otherwise its first 97 bytes, cut
/// back to a character boundary, followed by "...".
pub open spec fn truncated_path_label(path: Seq<char>) -> Seq<char> {
    let bytes = encode_utf8(path);
    if bytes.len() > MAX_PATH_LABEL_BYTES {
        decode_utf8(bytes.subrange(0, floor_boundary(bytes, KEPT_PATH_BYTES as int))) + ellipsis()
    } else {
        path
    }
}

/// The abstract state of a [`RequestMetricsMiddleware`].
pub struct LabelState {
    /// Whether paths are labelled at all.
    pub include_path: bool,
    /// Most distinct path labels this instance admits.
    pub cap: nat,
    /// Path labels admitted so far, in order of admission.
    pub seen: Seq<Seq<char>>,
}

impl LabelState {
    pub open spec fn wf(self) -> bool {
        &&& self.cap >= 1
        &&& self.seen.len() <= self.cap
        &&& self.seen.no_duplicates()
    }

    /// One labelling step: the next state and the label given to `path`.
    pub open spec fn step(self, path: Seq<char>) -> (LabelState, Seq<char>) {
        if !self.include_path {
            (self, unlabelled_path())
        } else {
            let candidate = truncated_path_label(path);
            if self.seen.contains(candidate) {
                (self, candidate)
            } else if self.seen.len() < self.cap {
                (LabelState { seen: self.seen.push(candidate), ..self }, candidate)
            } else {
                (self, other_label())
            }
        }
    }
}

/// The path of a request target: everything before its first '?', so that
/// the query string never reaches a label.
pub open spec fn path_part(target: Seq<char>) -> Seq<char>
    decreases target.len(),
{
    if target.len() == 0 || target[0] == '?' {
        Seq::empty()
    } else {
        seq![target[0]] + path_part(target.drop_first())
    }
}

/// The state after labelling `paths` in order from `s`, and the labels given.
pub open spec fn run(s: LabelState, paths: Seq<Seq<char>>) -> (LabelState, Seq<Seq<char>>)
    decreases paths.len(),
{
    if paths.len() == 0 {
        (s, Seq::empty())
    } else {
        let (mid, labels) = run(s, paths.drop_last());
        let (last, label) = mid.step(paths.last());
        (last, labels.push(label))
    }
}

/// Request metrics middleware: decides the label values of the HTTP request
/// metrics (`http_requests_total`, `http_request_duration_seconds`,
/// `http_requests_in_flight`, `http_request_size_bytes`,
/// `http_response_size_bytes`).
pub struct RequestMetricsMiddleware {
    include_path: bool,
    max_path_cardinality: usize,
    seen_paths: Vec<String>,
}

impl View for RequestMetricsMiddleware {
    type V = LabelState;

    closed spec fn view(&self) -> LabelState {
        LabelState {
            include_path: self.include_path,
            cap: self.max_path_cardinality as nat,
            seen: self.seen_paths@.map_values(|s: String| s@),
        }
    }
}

proof fn lemma_floor_boundary_unique(bytes: Seq<u8>, limit: int, e: int)
    requires
        is_floor_boundary(bytes, limit, e),
    ensures
        floor_boundary(bytes, limit) == e,
{
    let f = floor_boundary(bytes, limit);
    assert(is_floor_boundary(bytes, limit, f));
    if f < e {
        assert(!is_char_boundary(bytes, e));
    } else if e < f {
        assert(!is_char_boundary(bytes, f));
    }
}

/// The label of `path` before the cardinality bound.
pub fn truncate_path(path: &str) -> (label: String)
    ensures
        label@ == truncated_path_label(path@),
{
    let ghost bytes = path.spec_bytes();
    if path.as_bytes().len() > MAX_PATH_LABEL_BYTES {
        let mut end: usize = KEPT_PATH_BYTES;
        while end > 0 && !path.is_char_boundary(end)
            invariant
                bytes == path.spec_bytes(),
                valid_utf8(bytes),
                bytes.len() > MAX_PATH_LABEL_BYTES,
                0 <= end <= KEPT_PATH_BYTES,
                forall|k: int| end < k <= KEPT_PATH_BYTES ==> !is_char_boundary(bytes, k),
            decreases end,
        {
            end = end - 1;
        }
        proof {
            assert(is_char_boundary(bytes, end as int));
            assert(is_floor_boundary(bytes, KEPT_PATH_BYTES as int, end as int));
            lemma_floor_boundary_unique(bytes, KEPT_PATH_BYTES as int, end as int);
        }
        let (head, _tail) = path.split_at(end);
        let mut label = head.to_owned();
        proof {
            assert(head@ == decode_utf8(encode_utf8(head@)));
            assert(head@ == decode_utf8(bytes.subrange(0, end as int)));
        }
        label.append("...");
        proof {
            reveal_strlit("...");
            assert("..."@ =~= ellipsis());
            assert(label@ == decode_utf8(bytes.subrange(0, end as int)) + ellipsis());
            assert(bytes == encode_utf8(path@));
            assert(truncated_path_label(path@) == decode_utf8(bytes.subrange(0, end as int)) + ellipsis());
        }
        label
    } else {
        path.to_owned()
    }
}

pub proof fn lemma_path_part_prefix(target: Seq<char>, i: int)
    requires
        0 <= i <= target.len(),
        forall|j: int| 0 <= j < i ==> target[j] != '?',
        i == target.len() || target[i] == '?',
    ensures
        path_part(target) == target.take(i),
    decreases i,
{
    if i > 0 {
        lemma_path_part_prefix(target.drop_first(), i - 1);
        assert(target.take(i) =~= seq![target[0]] + target.drop_first().take(i - 1));
    } else {
        assert(target.take(0) =~= Seq::<char>::empty());
    }
}

proof fn lemma_chars_fit_in_bytes(s: Seq<char>)
    ensures
        s.len() <= encode_utf8(s).len(),
    decreases s.len(),
{
    if s.len() > 0 {
        lemma_chars_fit_in_bytes(s.drop_first());
    }
}

/// The part of a request target that names the route: the target up to its
/// first '?'.
pub fn path_only(target: &str) -> (path: &str)
    ensures
        path@ == path_part(target@),
{
    broadcast use vstd::string::group_string_axioms;

    proof {
        lemma_chars_fit_in_bytes(target@);
    }
    let byte_count = target.as_bytes().len();
    let ghost limit = byte_count as nat;
    let mut chars = target.chars();
    let mut idx: usize = 0;
    loop
        invariant_except_break
            vstd::std_specs::iter::IteratorSpec::remaining(&chars) == target@.skip(idx as int),
        invariant
            0 <= idx <= target@.len(),
            target@.len() <= limit,
            limit <= usize::MAX,
            forall|j: int| 0 <= j < idx ==> target@[j] != '?',
        ensures
            0 <= idx <= target@.len(),
            forall|j: int| 0 <= j < idx ==> target@[j] != '?',
            idx == target@.len() || target@[idx as int] == '?',
        decreases target@.len() - idx,
    {
        let next = chars.next();
        match next {
            None => {
                break ;
            },
            Some(c) => {
                if c == '?' {
                    break ;
                }
                assert(target@.skip(idx as int).drop_first() =~= target@.skip(idx + 1));
                idx = idx + 1;
            },
        }
    }
    proof {
        lemma_path_part_prefix(target@, idx as int);
    }
    target.substring_char(0, idx)
}

impl RequestMetricsMiddleware {
    /// The instance's invariant: a cap of at least one, at most `cap`
    /// admitted path labels, none of them twice.
    #[verifier::type_invariant]
    pub open spec fn wf(&self) -> bool {
        self@.wf()
    }

    /// Middleware with path labelling disabled: every path is labelled "/".
    pub fn new() -> (m: Self)
        ensures
            m.wf(),
            m@ == (LabelState {
                include_path: false,
                cap: DEFAULT_PATH_CARDINALITY_CAP as nat,
                seen: Seq::empty(),
            }),
    {
        let m = RequestMetricsMiddleware {
            include_path: false,
            max_path_cardinality: DEFAULT_PATH_CARDINALITY_CAP,
            seen_paths: Vec::new(),
        };
        proof {
            assert(m@.seen =~= Seq::<Seq<char>>::empty());
        }
        m
    }

    /// Middleware with bounded per-path labels, capped at
    /// [`DEFAULT_PATH_CARDINALITY_CAP`] distinct paths.
    pub fn with_path() -> (m: Self)
        ensures
            m.wf(),
            m@ == (LabelState {
                include_path: true,
                cap: DEFAULT_PATH_CARDINALITY_CAP as nat,
                seen: Seq::empty(),
            }),
    {
        let m = RequestMetricsMiddleware {
            include_path: true,
            max_path_cardinality: DEFAULT_PATH_CARDINALITY_CAP,
            seen_paths: Vec::new(),
        };
        proof {
            assert(m@.seen =~= Seq::<Seq<char>>::empty());
        }
        m
    }

    /// Middleware with bounded per-path labels and a custom cap; a cap of 0
    /// is taken as 1.
    pub fn with_path_cardinality(max_path_cardinality: usize) -> (m: Self)
        ensures
            m.wf(),
            m@ == (LabelState {
                include_path: true,
                cap: if max_path_cardinality == 0 { 1 } else { max_path_cardinality as nat },
                seen: Seq::empty(),
            }),
    {
        let cap = if max_path_cardinality == 0 { 1 } else { max_path_cardinality };
        let m = RequestMetricsMiddleware {
            include_path: true,
            max_path_cardinality: cap,
            seen_paths: Vec::new(),
        };
        proof {
            assert(m@.seen =~= Seq::<Seq<char>>::empty());
        }
        m
    }

    /// Middleware without path labels; the same as [`Self::new`].
    pub fn without_path() -> (m: Self)
        ensures
            m.wf(),
            m@ == (LabelState {
                include_path: false,
                cap: DEFAULT_PATH_CARDINALITY_CAP as nat,
                seen: Seq::empty(),
            }),
    {
        Self::new()
    }

    /// Whether this instance labels requests by path.
    pub fn include_path(&self) -> (b: bool)
        ensures
            b == self@.include_path,
    {
        self.include_path
    }

    /// The path label for `path`, admitting it under the cap when it is new.
    ///
    /// Disabled path labelling gives "/". Otherwise the path is first cut to
    /// its label form ([`truncate_path`]); a label admitted before is given
    /// again, a new one is admitted while fewer than `cap` are, and any other
    /// path gets [`OTHER_PATH_LABEL`].
    pub fn sanitize_path(&mut self, path: &str) -> (label: String)
        ensures
            final(self).wf(),
            (final(self)@, label@) == old(self)@.step(path@),
    {
        proof {
            use_type_invariant(&*self);
        }
        if !self.include_path {
            proof {
                reveal_strlit("/");
                assert(UNLABELLED_PATH@ =~= unlabelled_path());
            }
            return UNLABELLED_PATH.to_owned();
        }
        let candidate = truncate_path(path);
        let ghost seen = self@.seen;
        let n = self.seen_paths.len();
        let mut i: usize = 0;
        while i < n
            invariant
                self@ == old(self)@,
                old(self).wf(),
                self@.seen == seen,
                self@.include_path,
                candidate@ == truncated_path_label(path@),
                n == self.seen_paths@.len(),
                seen.len() == n,
                0 <= i <= n,
                forall|j: int| 0 <= j < i ==> seen[j] != candidate@,
            decreases n - i,
        {
            if self.seen_paths[i] == candidate {
                proof {
                    assert(seen[i as int] == candidate@);
                    assert(seen.contains(candidate@));
                }
                return candidate;
            }
            i = i + 1;
        }
        proof {
            assert(!seen.contains(candidate@));
        }
        if self.seen_paths.len() < self.max_path_cardinality {
            let admitted = candidate.clone();
            let mut seen_paths: Vec<String> = Vec::new();
            std::mem::swap(&mut seen_paths, &mut self.seen_paths);
            seen_paths.push(admitted);
            proof {
                assert(seen_paths@.map_values(|s: String| s@) =~= seen.push(candidate@));
                assert(seen.push(candidate@).no_duplicates());
            }
            self.seen_paths = seen_paths;
            proof {
                assert(self@.seen =~= seen.push(candidate@));
            }
            candidate
        } else {
            proof {
                reveal_strlit("<other>");
                assert(OTHER_PATH_LABEL@ =~= other_label());
            }
            OTHER_PATH_LABEL.to_owned()
        }
    }
}

impl Default for RequestMetricsMiddleware {
    /// The same as [`RequestMetricsMiddleware::new`].
    fn default() -> (m: Self)
        ensures
            m.wf(),
            m@ == (LabelState {
                include_path: false,
                cap: DEFAULT_PATH_CARDINALITY_CAP as nat,
                seen: Seq::empty(),
            }),
    {
        Self::new()
    }
}

} // verus!
