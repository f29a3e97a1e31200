//! Random texts for session keys and short paths.
use vstd::prelude::*;
use crate::deps::random_below;

verus! {

/// The characters of a generated password.
pub const PASSWORD_CHARSET: &'static str =
    "abcdefghijklmnopqrstuvwxyzABCDEFGHIJKLMNOPQRSTUVWXYZ0123456789!@#$%^&*().-";

/// Whether every character of `s` is one of `charset`.
pub open spec fn drawn_from(s: Seq<char>, charset: Seq<char>) -> bool {
    forall|i: int| 0 <= i < s.len() ==> charset.contains(#[trigger] s[i])
}

/// A random text of `length` characters, each drawn from `charset`, or from
/// the password characters when none is given.
pub fn random_string(length: usize, charset: Option<&str>) -> (r: String)
    requires
        charset matches Some(c) ==> c@.len() > 0,
    ensures
        r@.len() == length,
        drawn_from(
            r@,
            match charset {
                Some(c) => c@,
                None => PASSWORD_CHARSET@,
            },
        ),
{
    proof {
        reveal_strlit("abcdefghijklmnopqrstuvwxyzABCDEFGHIJKLMNOPQRSTUVWXYZ0123456789!@#$%^&*().-");
    }
    let chars = match charset {
        Some(c) => c,
        None => PASSWORD_CHARSET,
    };
    let n = chars.unicode_len();
    let mut s = String::new();
    let mut i: usize = 0;
    while i < length
        invariant
            i <= length,
            n == chars@.len() > 0,
            s@.len() == i,
            drawn_from(s@, chars@),
        decreases length - i,
    {
        let k = random_below(n);
        let picked = chars.substring_char(k, k + 1);
        let ghost before = s@;
        s.append(picked);
        proof {
            assert(picked@ =~= seq![chars@[k as int]]);
            assert(s@ =~= before.push(chars@[k as int]));
            assert(forall|j: int| 0 <= j < s@.len() ==> #[trigger] s@[j] == if j < i { before[j] } else { chars@[k as int] });
        }
        i = i + 1;
    }
    s
}

/// A random 16-character password drawn from the password characters.
pub fn random_password() -> (r: String)
    ensures
        r@.len() == 16,
        drawn_from(r@, PASSWORD_CHARSET@),
{
    random_string(16, None)
}

} // verus!
