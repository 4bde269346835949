//! Text handed to and received from PowerShell commands.
use vstd::prelude::*;
use crate::text::{chars_of, push_char, trim, trim_str};

verus! {

/// `s` with every single quote doubled, as a PowerShell single-quoted literal needs.
pub open spec fn ps_quoted(s: Seq<char>) -> Seq<char>
    decreases s.len(),
{
    if s.len() == 0 {
        Seq::<char>::empty()
    } else if s.last() == '\'' {
        ps_quoted(s.drop_last()) + seq!['\'', '\'']
    } else {
        ps_quoted(s.drop_last()).push(s.last())
    }
}

/// Escapes `value` for a PowerShell single-quoted literal (`'` becomes `''`).
pub fn ps_quote(value: &str) -> (r: String)
    ensures
        r@ == ps_quoted(value@),
{
    let v = chars_of(value);
    let n = v.len();
    let mut r = String::new();
    let mut i: usize = 0;
    while i < n
        invariant
            n == v.len(),
            v@ == value@,
            i <= n,
            r@ == ps_quoted(value@.subrange(0, i as int)),
        decreases n - i,
    {
        let ghost pre = value@.subrange(0, i as int);
        let ghost next = value@.subrange(0, i + 1);
        proof {
            assert(next.drop_last() =~= pre);
            assert(next.last() == v@[i as int]);
        }
        let c = v[i];
        if c == '\'' {
            push_char(&mut r, '\'');
            push_char(&mut r, '\'');
            proof {
                assert(r@ =~= ps_quoted(pre) + seq!['\'', '\'']);
            }
        } else {
            push_char(&mut r, c);
        }
        i = i + 1;
    }
    proof {
        assert(value@.subrange(0, n as int) =~= value@);
    }
    r
}

/// The error a failed command reports: its trimmed standard error, or `fallback` when
/// that is empty.
pub fn command_error(stderr: &str, fallback: &str) -> (r: String)
    ensures
        r@ == (if trim(stderr@).len() == 0 {
            fallback@
        } else {
            trim(stderr@)
        }),
{
    let err = trim_str(stderr);
    if err.is_empty() {
        String::from_str(fallback)
    } else {
        String::from_str(err)
    }
}

} // verus!
