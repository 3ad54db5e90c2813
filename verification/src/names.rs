//! The naming rules that `prometheus` applies when it builds a metric
//! descriptor.

use vstd::prelude::*;

verus! {

pub open spec fn is_ascii_letter(c: char) -> bool {
    ('a' <= c && c <= 'z') || ('A' <= c && c <= 'Z')
}

pub open spec fn is_ascii_digit(c: char) -> bool {
    '0' <= c && c <= '9'
}

/// `[a-zA-Z_:]`: the characters a metric name may start with.
pub open spec fn is_metric_name_start(c: char) -> bool {
    is_ascii_letter(c) || c == '_' || c == ':'
}

/// A valid metric name: `[a-zA-Z_:][a-zA-Z0-9_:]*`.
pub open spec fn valid_metric_name(name: Seq<char>) -> bool {
    &&& name.len() > 0
    &&& is_metric_name_start(name[0])
    &&& forall|i: int| 1 <= i < name.len() ==> is_metric_name_start(name[i]) || is_ascii_digit(name[i])
}

/// What `prometheus` requires of a metric's name and help before it accepts
/// a descriptor without labels: a valid name and a non-empty help text.
pub open spec fn valid_metric_opts(name: Seq<char>, help: Seq<char>) -> bool {
    valid_metric_name(name) && help.len() > 0
}

} // verus!

verus! {

/// Owned copies of `labels`, in order.
pub fn owned_label_names(labels: &[&str]) -> (names: Vec<String>)
    ensures
        names@.map_values(|s: String| s@) == labels@.map_values(|s: &str| s@),
{
    let mut names: Vec<String> = Vec::new();
    let n = labels.len();
    let mut i: usize = 0;
    while i < n
        invariant
            n == labels@.len(),
            0 <= i <= n,
            names@.map_values(|s: String| s@) == labels@.take(i as int).map_values(|s: &str| s@),
        decreases n - i,
    {
        names.push(labels[i].to_owned());
        proof {
            assert(labels@.take(i + 1).map_values(|s: &str| s@) =~= labels@.take(i as int).map_values(
                |s: &str| s@,
            ).push(labels@[i as int]@));
            assert(names@.map_values(|s: String| s@) =~= labels@.take(i as int).map_values(
                |s: &str| s@,
            ).push(labels@[i as int]@));
        }
        i = i + 1;
    }
    proof {
        assert(labels@.take(n as int) =~= labels@);
    }
    names
}

} // verus!
