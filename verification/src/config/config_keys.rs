use vstd::prelude::*;
use vstd::string::StrSliceExecFns;

verus! {

/// Whether `s` ends with `suffix`.
pub open spec fn ends_with(s: Seq<char>, suffix: Seq<char>) -> bool {
    suffix.len() <= s.len() && s.subrange(s.len() - suffix.len(), s.len() as int) == suffix
}

/// Whether `key` ends with `suffix`, character by character.
pub fn key_ends_with(key: &str, suffix: &str) -> (b: bool)
    ensures
        b == ends_with(key@, suffix@),
{
    let n = key.unicode_len();
    let m = suffix.unicode_len();
    if m > n {
        return false;
    }
    let offset = n - m;
    let mut i: usize = 0;
    while i < m
        invariant
            n == key@.len(),
            m == suffix@.len(),
            m <= n,
            offset == n - m,
            0 <= i <= m,
            forall|j: int| 0 <= j < i ==> key@[offset + j] == suffix@[j],
        decreases m - i,
    {
        if key.get_char(offset + i) != suffix.get_char(i) {
            proof {
                assert(key@.subrange(offset as int, n as int)[i as int] != suffix@[i as int]);
            }
            return false;
        }
        i = i + 1;
    }
    proof {
        assert(key@.subrange(offset as int, n as int) =~= suffix@);
    }
    true
}

/// Whether a configuration key names input files that must exist: it ends with
/// "input_file" or "input_files".
pub fn is_input_file_key(key: &str) -> (b: bool)
    ensures
        b == (ends_with(key@, "input_file"@) || ends_with(key@, "input_files"@)),
{
    key_ends_with(key, "input_file") || key_ends_with(key, "input_files")
}

} // verus!
