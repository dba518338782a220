use vstd::prelude::*;

verus! {

/// Whether two strings are the same text.
pub fn same_text(a: &str, b: &str) -> (r: bool)
    ensures
        r == (a@ == b@),
{
    String::from_str(a) == String::from_str(b)
}

/// Characters with the Unicode property White_Space.
pub open spec fn is_white_space(c: char) -> bool {
    let u = c as u32;
    (0x9 <= u <= 0xd) || u == 0x20 || u == 0x85 || u == 0xa0 || u == 0x1680 || (0x2000 <= u
        <= 0x200a) || u == 0x2028 || u == 0x2029 || u == 0x202f || u == 0x205f || u == 0x3000
}

/// `s` without its leading white space.
pub open spec fn trim_start(s: Seq<char>) -> Seq<char>
    decreases s.len(),
{
    if s.len() > 0 && is_white_space(s[0]) {
        trim_start(s.drop_first())
    } else {
        s
    }
}

/// `s` without its trailing white space.
pub open spec fn trim_end(s: Seq<char>) -> Seq<char>
    decreases s.len(),
{
    if s.len() > 0 && is_white_space(s.last()) {
        trim_end(s.drop_last())
    } else {
        s
    }
}

/// `s` without white space at either end.
pub open spec fn trimmed(s: Seq<char>) -> Seq<char> {
    trim_end(trim_start(s))
}

/// Relies on `str::trim`: it removes leading and trailing characters that
/// have the Unicode property White_Space.
#[verifier::external_body]
pub(crate) fn trim_text(s: &str) -> (r: &str)
    ensures
        r@ == trimmed(s@),
{
    s.trim()
}

/// The JSON string literal for `s`, quotes and escapes included.
pub uninterp spec fn json_quoted(s: Seq<char>) -> Seq<char>;

/// Relies on serde_json's `Display` for `Value::String`: the compact JSON
/// text of a string value, which depends on the string alone.
#[verifier::external_body]
pub(crate) fn json_string(s: &str) -> (r: String)
    ensures
        r@ == json_quoted(s@),
{
    serde_json::Value::String(s.to_string()).to_string()
}

/// The `Debug` text of a string: quoted, with escapes.
pub uninterp spec fn debug_quoted(s: Seq<char>) -> Seq<char>;

/// Relies on `Debug` for `str`: its text depends on the string alone.
#[verifier::external_body]
pub(crate) fn debug_text(s: &str) -> (r: String)
    ensures
        r@ == debug_quoted(s@),
{
    format!("{s:?}")
}

/// The decimal digit for `d < 10`.
pub open spec fn digit_char(d: nat) -> char {
    if d == 0 { '0' }
    else if d == 1 { '1' }
    else if d == 2 { '2' }
    else if d == 3 { '3' }
    else if d == 4 { '4' }
    else if d == 5 { '5' }
    else if d == 6 { '6' }
    else if d == 7 { '7' }
    else if d == 8 { '8' }
    else { '9' }
}

/// The decimal text of `n`, with no leading zero.
pub open spec fn decimal_text(n: nat) -> Seq<char>
    decreases n,
{
    if n < 10 {
        seq![digit_char(n)]
    } else {
        decimal_text(n / 10).push(digit_char(n % 10))
    }
}

fn digit_str(d: usize) -> (r: &'static str)
    requires
        d < 10,
    ensures
        r@ == seq![digit_char(d as nat)],
{
    proof {
        reveal_strlit("0");
        reveal_strlit("1");
        reveal_strlit("2");
        reveal_strlit("3");
        reveal_strlit("4");
        reveal_strlit("5");
        reveal_strlit("6");
        reveal_strlit("7");
        reveal_strlit("8");
        reveal_strlit("9");
    }
    let r = if d == 0 { "0" }
    else if d == 1 { "1" }
    else if d == 2 { "2" }
    else if d == 3 { "3" }
    else if d == 4 { "4" }
    else if d == 5 { "5" }
    else if d == 6 { "6" }
    else if d == 7 { "7" }
    else if d == 8 { "8" }
    else { "9" };
    assert(r@ =~= seq![digit_char(d as nat)]);
    r
}

/// The decimal text of `n`.
pub fn decimal(n: usize) -> (r: String)
    ensures
        r@ == decimal_text(n as nat),
    decreases n,
{
    if n < 10 {
        String::from_str(digit_str(n))
    } else {
        let r = decimal(n / 10).concat(digit_str(n % 10));
        assert(r@ =~= decimal_text(n as nat));
        r
    }
}

/// No space in `s`.
pub open spec fn space_free(s: Seq<char>) -> bool {
    forall|i: int| 0 <= i < s.len() ==> s[i] != ' '
}

/// Whether `s` holds a space.
pub open spec fn has_space(s: Seq<char>) -> bool {
    exists|k: int| 0 <= k < s.len() && s[k] == ' '
}

/// Position of the first space in `s`.
pub open spec fn first_space(s: Seq<char>) -> int {
    choose|k: int| 0 <= k < s.len() && s[k] == ' ' && space_free(s.take(k))
}

/// A command line split at its first space into the verb and, where there
/// is a space, the argument after it.
pub open spec fn split_command(m: Seq<char>) -> (Seq<char>, Option<Seq<char>>) {
    if has_space(m) {
        (m.take(first_space(m)), Some(m.skip(first_space(m) + 1)))
    } else {
        (m, None)
    }
}

/// Splits a command line at its first space.
pub fn split_command_line(m: &str) -> (r: (&str, Option<&str>))
    ensures
        r.0@ == split_command(m@).0,
        r.1 is None <==> split_command(m@).1 is None,
        r.1 matches Some(a) ==> split_command(m@).1 == Some(a@),
{
    let n = m.unicode_len();
    let mut k: usize = 0;
    while k < n
        invariant
            n == m@.len(),
            k <= n,
            forall|i: int| 0 <= i < k ==> m@[i] != ' ',
        decreases n - k,
    {
        if m.get_char(k) == ' ' {
            proof {
                assert(space_free(m@.take(k as int)));
                assert(has_space(m@));
                let f = first_space(m@);
                assert(0 <= f < m@.len() && m@[f] == ' ' && space_free(m@.take(f)));
                if f < k {
                    assert(m@[f] != ' ');
                } else if f > k {
                    assert(m@.take(f)[k as int] == ' ');
                }
            }
            let verb = m.substring_char(0, k);
            let arg = m.substring_char(k + 1, n);
            assert(arg@ =~= m@.skip(k + 1));
            return (verb, Some(arg));
        }
        k = k + 1;
    }
    assert(!has_space(m@));
    assert(m@.take(n as int) =~= m@);
    (m.substring_char(0, n), None)
}

/// Whether `m` begins with a slash, the mark of a command.
pub fn is_command(m: &str) -> (r: bool)
    ensures
        r == (m@.len() > 0 && m@[0] == '/'),
{
    m.unicode_len() > 0 && m.get_char(0) == '/'
}

} // verus!
