//! `/`-delimited path arguments: splitting into segments and joining a
//! relative argument onto a session's current path.

use vstd::prelude::*;
use crate::util::{split_bytes, split_on};

verus! {

/// The byte `/`.
pub const SEP: u8 = 47;

/// The non-empty segments of `s`, split on `/`.
pub open spec fn split_segments(s: Seq<u8>) -> Seq<Seq<u8>> {
    split_on(s, SEP)
}

/// An argument starting with `/` replaces the base path; any other argument
/// is resolved relative to it.
pub open spec fn joined_path(base: Seq<Seq<u8>>, arg: Seq<u8>) -> Seq<Seq<u8>> {
    if arg.len() > 0 && arg[0] == SEP {
        split_segments(arg)
    } else {
        base + split_segments(arg)
    }
}

/// Joins `arg` onto `base` and splits the result into segments.
pub fn parse_path(base: &Vec<Vec<u8>>, arg: &[u8]) -> (r: Vec<Vec<u8>>)
    ensures
        r.deep_view() == joined_path(base.deep_view(), arg@),
{
    let mut segs = split_bytes(arg, SEP);
    if arg.len() > 0 && arg[0] == SEP {
        return segs;
    }
    let mut r: Vec<Vec<u8>> = Vec::new();
    let mut k: usize = 0;
    proof {
        assert(r.deep_view() =~= base.deep_view().take(0));
    }
    while k < base.len()
        invariant
            k <= base@.len(),
            r.deep_view() =~~= base.deep_view().take(k as int),
        decreases base@.len() - k,
    {
        let c = base[k].clone();
        proof {
            assert(c@ =~~= base@[k as int]@);
        }
        r.push(c);
        proof {
            assert(r.deep_view() =~~= base.deep_view().take(k + 1));
        }
        k = k + 1;
    }
    proof {
        assert(base.deep_view().take(base@.len() as int) =~~= base.deep_view());
    }
    let ghost rb = r.deep_view();
    let ghost sb = segs.deep_view();
    r.append(&mut segs);
    proof {
        assert(r.deep_view() =~~= rb + sb);
    }
    r
}

} // verus!
