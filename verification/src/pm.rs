//! The parts of a `powermetrics` sample that do not depend on its
//! floating-point readings: the battery section and cluster names.
use vstd::prelude::*;

use crate::text::chars_of;

verus! {

/// The battery section of a `powermetrics` sample.
#[derive(Clone, Copy, Debug, Default, PartialEq, Eq, Structural)]
pub struct Battery {
    pub percent_charge: Option<u8>,
}

/// The kind of a CPU cluster, told by its name.
#[derive(Clone, Copy, Debug, PartialEq, Eq, Structural)]
pub enum ClusterKind {
    Efficiency,
    Performance,
}

/// Whether `name` starts with `first` and ends with `Cluster`.
pub open spec fn names_cluster(name: Seq<char>, first: char) -> bool {
    &&& name.len() > 0
    &&& name[0] == first
    &&& name.len() >= 7
    &&& name.subrange(name.len() - 7, name.len() as int) == "Cluster"@
}

/// The kind of the cluster called `name`: efficiency for `E…Cluster`,
/// performance for `P…Cluster`, none otherwise.
pub open spec fn spec_cluster_kind(name: Seq<char>) -> Option<ClusterKind> {
    if names_cluster(name, 'E') {
        Some(ClusterKind::Efficiency)
    } else if names_cluster(name, 'P') {
        Some(ClusterKind::Performance)
    } else {
        None
    }
}

/// The kind of the cluster called `name`.
pub fn cluster_kind(name: &str) -> (kind: Option<ClusterKind>)
    ensures
        kind == spec_cluster_kind(name@),
{
    let chars = chars_of(name);
    let n = chars.len();
    proof {
        reveal_strlit("Cluster");
    }
    if n < 7 {
        return None;
    }
    let suffix = chars[n - 7] == 'C' && chars[n - 6] == 'l' && chars[n - 5] == 'u' && chars[n - 4]
        == 's' && chars[n - 3] == 't' && chars[n - 2] == 'e' && chars[n - 1] == 'r';
    proof {
        let tail = name@.subrange(n - 7, n as int);
        if suffix {
            assert(tail =~= "Cluster"@);
        } else {
            assert(tail != "Cluster"@) by {
                if tail == "Cluster"@ {
                    assert(tail[0] == 'C' && tail[1] == 'l' && tail[2] == 'u' && tail[3] == 's'
                        && tail[4] == 't' && tail[5] == 'e' && tail[6] == 'r');
                }
            }
        }
    }
    if !suffix {
        return None;
    }
    if chars[0] == 'E' {
        Some(ClusterKind::Efficiency)
    } else if chars[0] == 'P' {
        Some(ClusterKind::Performance)
    } else {
        None
    }
}

} // verus!
