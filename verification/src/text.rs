//! Small verified text helpers: whitespace trimming and string equality.

use vstd::prelude::*;

verus! {

/// The Unicode white-space characters, the set `str::trim` removes.
pub open spec fn is_space_char(c: char) -> bool {
    ||| c == ' '
    ||| c == '\t'
    ||| c == '\n'
    ||| c == '\r'
    ||| (c as u32) == 0x0B
    ||| (c as u32) == 0x0C
    ||| (c as u32) == 0x85
    ||| (c as u32) == 0xA0
    ||| (c as u32) == 0x1680
    ||| 0x2000 <= (c as u32) <= 0x200A
    ||| (c as u32) == 0x2028
    ||| (c as u32) == 0x2029
    ||| (c as u32) == 0x202F
    ||| (c as u32) == 0x205F
    ||| (c as u32) == 0x3000
}

/// The string with surrounding whitespace removed.
pub open spec fn spec_trim(s: Seq<char>) -> Seq<char>
    decreases s.len(),
{
    if s.len() > 0 && is_space_char(s[0]) {
        spec_trim(s.drop_first())
    } else if s.len() > 0 && is_space_char(s.last()) {
        spec_trim(s.drop_last())
    } else {
        s
    }
}

/// Trimming never lengthens a string.
pub proof fn lemma_trim_len(s: Seq<char>)
    ensures
        spec_trim(s).len() <= s.len(),
    decreases s.len(),
{
    if s.len() > 0 && is_space_char(s[0]) {
        lemma_trim_len(s.drop_first());
    } else if s.len() > 0 && is_space_char(s.last()) {
        lemma_trim_len(s.drop_last());
    }
}

/// A string holding any non-whitespace character does not trim to
/// nothing.
pub proof fn lemma_trim_keeps_content(s: Seq<char>, i: int)
    requires
        0 <= i < s.len(),
        !is_space_char(s[i]),
    ensures
        spec_trim(s).len() > 0,
    decreases s.len(),
{
    if s.len() > 0 && is_space_char(s[0]) {
        lemma_trim_keeps_content(s.drop_first(), i - 1);
    } else if s.len() > 0 && is_space_char(s.last()) {
        lemma_trim_keeps_content(s.drop_last(), i);
    }
}

/// Removes surrounding whitespace.
pub fn trim_str(s: &str) -> (r: String)
    ensures
        r@ == spec_trim(s@),
{
    let mut from: usize = 0;
    let mut to: usize = s.unicode_len();
    proof {
        assert(s@.subrange(0, to as int) =~= s@);
    }
    loop
        invariant
            0 <= from <= to <= s@.len(),
            spec_trim(s@) == spec_trim(s@.subrange(from as int, to as int)),
        ensures
            0 <= from <= to <= s@.len(),
            spec_trim(s@) == s@.subrange(from as int, to as int),
        decreases to - from,
    {
        let ghost cur = s@.subrange(from as int, to as int);
        if from < to && is_space(s.get_char(from)) {
            proof {
                assert(cur.drop_first() =~= s@.subrange(from as int + 1, to as int));
            }
            from = from + 1;
        } else if from < to && is_space(s.get_char(to - 1)) {
            proof {
                assert(cur.drop_last() =~= s@.subrange(from as int, to as int - 1));
            }
            to = to - 1;
        } else {
            break ;
        }
    }
    s.substring_char(from, to).to_owned()
}

fn is_space(c: char) -> (r: bool)
    ensures
        r == is_space_char(c),
{
    let n: u32 = c as u32;
    c == ' ' || c == '\t' || c == '\n' || c == '\r' || n == 0x0B || n == 0x0C || n == 0x85 || n
        == 0xA0 || n == 0x1680 || (0x2000 <= n && n <= 0x200A) || n == 0x2028 || n == 0x2029 || n
        == 0x202F || n == 0x205F || n == 0x3000
}

/// Whether two strings hold the same characters.
pub fn str_equal(a: &str, b: &str) -> (r: bool)
    ensures
        r == (a@ == b@),
{
    let n: usize = a.unicode_len();
    if n != b.unicode_len() {
        proof {
            assert(a@ != b@);
        }
        return false;
    }
    let mut i: usize = 0;
    while i < n
        invariant
            i <= n,
            n == a@.len() == b@.len(),
            forall|j: int| 0 <= j < i ==> a@[j] == b@[j],
        decreases n - i,
    {
        if a.get_char(i) != b.get_char(i) {
            return false;
        }
        i = i + 1;
    }
    proof {
        assert(a@ =~= b@);
    }
    true
}

} // verus!
