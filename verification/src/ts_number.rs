//! The document number a source file's name carries.
//!
//! A source file is named after its specification and version, the two
//! joined by a dash — `23501-f80`, say. The part before the first dash is
//! the document number written without its dot; the normalized `NN.NNN`
//! form splits it after the second character.

use vstd::prelude::*;

verus! {

/// The index of the first dash at or after `i`, or the end of `s`.
pub open spec fn dash_end(s: Seq<char>, i: int) -> int
    decreases s.len() - i,
{
    if 0 <= i < s.len() && s[i] != '-' {
        dash_end(s, i + 1)
    } else {
        i
    }
}

/// What `extract_ts_number_from_file_path` returns: nothing when the
/// stem has no dash; otherwise the part before the first dash with a dot
/// placed after its second character.
pub open spec fn ts_number_of(stem: Seq<char>) -> Option<Seq<char>> {
    let d = dash_end(stem, 0);
    if d < stem.len() {
        Some(stem.subrange(0, 2) + "."@ + stem.subrange(2, d))
    } else {
        None
    }
}

/// The normalized document number named by a source file's stem — the
/// file name without directory and extension. The stem's first dash must
/// not stand among its first two characters.
pub fn extract_ts_number_from_file_path(file_stem: &str) -> (r: Option<String>)
    requires
        dash_end(file_stem@, 0) == file_stem@.len() || dash_end(file_stem@, 0) >= 2,
    ensures
        match r {
            Some(t) => ts_number_of(file_stem@) == Some(t@),
            None => ts_number_of(file_stem@) is None,
        },
{
    let n = file_stem.unicode_len();
    let mut d: usize = 0;
    while d < n && file_stem.get_char(d) != '-'
        invariant
            0 <= d <= n,
            n == file_stem@.len(),
            dash_end(file_stem@, 0) == dash_end(file_stem@, d as int),
        decreases n - d,
    {
        d = d + 1;
    }
    assert(dash_end(file_stem@, d as int) == d);
    if d == n {
        return None;
    }
    let mut out = String::from_str(file_stem.substring_char(0, 2));
    out.append(".");
    out.append(file_stem.substring_char(2, d));
    proof {
        assert(out@ =~= file_stem@.subrange(0, 2) + "."@ + file_stem@.subrange(2, d as int));
    }
    Some(out)
}

} // verus!
