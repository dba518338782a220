use rand::Rng;
use vstd::prelude::*;

verus! {

/// Whether `c` is an ASCII letter or digit.
pub open spec fn is_ascii_alphanumeric(c: char) -> bool {
    ('a' <= c && c <= 'z') || ('A' <= c && c <= 'Z') || ('0' <= c && c <= '9')
}

/// Relies on rand's `Alphanumeric` distribution drawn from the thread's
/// generator: `len` characters, each an ASCII letter or digit.
#[verifier::external_body]
fn random_alphanumeric(len: usize) -> (r: String)
    ensures
        r@.len() == len,
        forall|i: int| 0 <= i < r@.len() ==> is_ascii_alphanumeric(#[trigger] r@[i]),
{
    rand::thread_rng().sample_iter(&rand::distributions::Alphanumeric).take(len).map(char::from).collect()
}

/// A user's profile.
#[derive(Debug)]
pub struct UserInfo {
    pub nickname: String,
}

impl UserInfo {
    /// A profile with the given nickname.
    pub fn new(user_name: &str) -> (r: UserInfo)
        ensures
            r.nickname@ == user_name@,
    {
        UserInfo { nickname: String::from_str(user_name) }
    }

    /// A profile with a made-up nickname: "User-" and fifteen random ASCII
    /// letters and digits.
    pub fn random() -> (r: UserInfo)
        ensures
            r.nickname@.len() == 20,
            r.nickname@.take(5) == "User-"@,
            forall|i: int| 5 <= i < 20 ==> is_ascii_alphanumeric(#[trigger] r.nickname@[i]),
    {
        proof {
            reveal_strlit("User-");
        }
        let tail = random_alphanumeric(15);
        let nickname = String::from_str("User-").concat(tail.as_str());
        assert(nickname@.take(5) =~= "User-"@);
        UserInfo { nickname }
    }
}

impl Default for UserInfo {
    fn default() -> (r: UserInfo)
        ensures
            r.nickname@.len() == 20,
            r.nickname@.take(5) == "User-"@,
            forall|i: int| 5 <= i < 20 ==> is_ascii_alphanumeric(#[trigger] r.nickname@[i]),
    {
        UserInfo::random()
    }
}

} // verus!
