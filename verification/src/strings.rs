use vstd::prelude::*;
use vstd::string::StrSliceExecFns;

verus! {

/// Relies on `String::push`: appends exactly the given character at the end.
#[verifier::external_body]
pub(crate) fn push_char(s: &mut String, c: char)
    ensures
        final(s)@ == old(s)@.push(c),
{
    s.push(c);
}

/// Copies the characters of `input` at positions `start..end` into a fresh
/// `String`.
pub(crate) fn copy_range(input: &str, n: usize, start: usize, end: usize) -> (out: String)
    requires
        n == input@.len(),
        start <= end <= n,
    ensures
        out@ == input@.subrange(start as int, end as int),
{
    let mut out = String::new();
    proof {
        assert(out@ =~= input@.subrange(start as int, start as int));
    }
    let mut i = start;
    while i < end
        invariant
            n == input@.len(),
            start <= i <= end <= n,
            out@ == input@.subrange(start as int, i as int),
        decreases end - i,
    {
        let c = input.get_char(i);
        push_char(&mut out, c);
        proof {
            assert(input@.subrange(start as int, (i + 1) as int) =~= input@.subrange(
                start as int,
                i as int,
            ).push(input@[i as int]));
        }
        i = i + 1;
    }
    out
}

} // verus!
