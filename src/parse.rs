//! Validation of user-supplied command-line values: block hashes and
//! websocket endpoints.
use vstd::prelude::*;
use vstd::string::*;

verus! {

/// Whether `c` is an ASCII hexadecimal digit (`0-9`, `a-f`, `A-F`).
pub open spec fn is_hex_char(c: char) -> bool {
    ('0' <= c && c <= '9') || ('a' <= c && c <= 'f') || ('A' <= c && c <= 'F')
}

/// Whether `s` begins with `p`.
pub open spec fn has_prefix(s: Seq<char>, p: Seq<char>) -> bool {
    p.len() <= s.len() && s.subrange(0, p.len() as int) == p
}

/// The block hash text once an optional leading `0x` is removed.
pub open spec fn hash_body(s: Seq<char>) -> Seq<char> {
    if has_prefix(s, seq!['0', 'x']) {
        s.subrange(2, s.len() as int)
    } else {
        s
    }
}

/// Whether every character of `s` is a hex digit.
pub open spec fn all_hex(s: Seq<char>) -> bool {
    forall|i: int| 0 <= i < s.len() ==> is_hex_char(#[trigger] s[i])
}

/// Whether `p` is the position of the first character of `s` that is not a
/// hex digit.
pub open spec fn first_non_hex(s: Seq<char>, p: int) -> bool {
    &&& 0 <= p < s.len()
    &&& !is_hex_char(s[p])
    &&& forall|i: int| 0 <= i < p ==> is_hex_char(#[trigger] s[i])
}

/// The decimal digit character of `d`, for `d < 10`.
pub open spec fn digit_char(d: nat) -> char {
    if d == 0 { '0' }
    else if d == 1 { '1' }
    else if d == 2 { '2' }
    else if d == 3 { '3' }
    else if d == 4 { '4' }
    else if d == 5 { '5' }
    else if d == 6 { '6' }
    else if d == 7 { '7' }
    else if d == 8 { '8' }
    else { '9' }
}

/// The decimal representation of `n`, without leading zeros.
pub open spec fn decimal(n: nat) -> Seq<char>
    decreases n,
{
    if n < 10 {
        seq![digit_char(n)]
    } else {
        decimal(n / 10).push(digit_char(n % 10))
    }
}

/// The message that rejects a block hash whose character at `pos` (counted
/// from the start of the input, prefix included) is not a hex digit.
pub open spec fn illegal_hex_message(pos: nat) -> Seq<char> {
    "Expected block hash, found illegal hex character at position: "@ + decimal(pos)
}

/// The message that rejects a url without a websocket scheme.
pub open spec fn bad_url_message() -> Seq<char> {
    "not a valid WS(S) url: must start with 'ws://' or 'wss://'"@
}

/// Whether `s` starts with a websocket scheme.
pub open spec fn is_ws_url(s: Seq<char>) -> bool {
    has_prefix(s, seq!['w', 's', ':', '/', '/']) || has_prefix(s, seq!['w', 's', 's', ':', '/', '/'])
}

fn is_hex_digit(c: char) -> (r: bool)
    ensures
        r == is_hex_char(c),
{
    ('0' <= c && c <= '9') || ('a' <= c && c <= 'f') || ('A' <= c && c <= 'F')
}

fn digit_str(d: u128) -> (r: &'static str)
    requires
        d < 10,
    ensures
        r@ == seq![digit_char(d as nat)],
{
    proof {
        reveal_strlit("0");
        reveal_strlit("1");
        reveal_strlit("2");
        reveal_strlit("3");
        reveal_strlit("4");
        reveal_strlit("5");
        reveal_strlit("6");
        reveal_strlit("7");
        reveal_strlit("8");
        reveal_strlit("9");
    }
    if d == 0 { "0" }
    else if d == 1 { "1" }
    else if d == 2 { "2" }
    else if d == 3 { "3" }
    else if d == 4 { "4" }
    else if d == 5 { "5" }
    else if d == 6 { "6" }
    else if d == 7 { "7" }
    else if d == 8 { "8" }
    else { "9" }
}

/// Appends the decimal representation of `n` to `out`.
fn push_decimal(out: &mut String, n: u128)
    ensures
        final(out)@ == old(out)@ + decimal(n as nat),
    decreases n,
{
    if n < 10 {
        out.append(digit_str(n));
    } else {
        push_decimal(out, n / 10);
        out.append(digit_str(n % 10));
    }
}

/// Whether `s` starts with the characters of `p`.
fn starts_with(s: &str, p: &str) -> (r: bool)
    ensures
        r == has_prefix(s@, p@),
{
    let n = s.unicode_len();
    let m = p.unicode_len();
    if m > n {
        return false;
    }
    let mut i: usize = 0;
    while i < m
        invariant
            m <= n,
            n == s@.len(),
            m == p@.len(),
            i <= m,
            forall|k: int| 0 <= k < i ==> s@[k] == p@[k],
        decreases m - i,
    {
        if s.get_char(i) != p.get_char(i) {
            assert(s@.subrange(0, m as int)[i as int] != p@[i as int]);
            return false;
        }
        i = i + 1;
    }
    assert(s@.subrange(0, m as int) =~= p@);
    true
}

/// Checks that `block_number` is a hex block hash, with or without a leading
/// `0x`, and returns it without that prefix.
///
/// A character that is not a hex digit is reported by its position in the
/// input, counting the two prefix characters whether or not they were given.
pub fn hash(block_number: &str) -> (r: Result<String, String>)
    ensures
        r is Ok <==> all_hex(hash_body(block_number@)),
        r matches Ok(h) ==> h@ == hash_body(block_number@),
        r matches Err(e) ==> exists|p: int|
            first_non_hex(hash_body(block_number@), p) && e@ == illegal_hex_message((p + 2) as nat),
{
    proof {
        reveal_strlit("0x");
        assert("0x"@ =~= seq!['0', 'x']);
    }
    let body = if starts_with(block_number, "0x") {
        let n = block_number.unicode_len();
        block_number.substring_char(2, n)
    } else {
        block_number
    };
    assert(body@ == hash_body(block_number@));
    let len = body.unicode_len();
    let mut i: usize = 0;
    while i < len
        invariant
            len == body@.len(),
            body@ == hash_body(block_number@),
            i <= len,
            forall|k: int| 0 <= k < i ==> is_hex_char(#[trigger] body@[k]),
        decreases len - i,
    {
        if !is_hex_digit(body.get_char(i)) {
            let mut msg = String::from_str("Expected block hash, found illegal hex character at position: ");
            push_decimal(&mut msg, i as u128 + 2);
            assert(first_non_hex(body@, i as int));
            return Err(msg);
        }
        i = i + 1;
    }
    Ok(String::from_str(body))
}

/// Checks that `s` is a websocket url (`ws://` or `wss://`) and returns it.
pub fn url(s: &str) -> (r: Result<String, &'static str>)
    ensures
        r is Ok <==> is_ws_url(s@),
        r matches Ok(u) ==> u@ == s@,
        r matches Err(e) ==> e@ == bad_url_message(),
{
    proof {
        reveal_strlit("ws://");
        reveal_strlit("wss://");
        assert("ws://"@ =~= seq!['w', 's', ':', '/', '/']);
        assert("wss://"@ =~= seq!['w', 's', 's', ':', '/', '/']);
    }
    if starts_with(s, "ws://") || starts_with(s, "wss://") {
        Ok(String::from_str(s))
    } else {
        Err("not a valid WS(S) url: must start with 'ws://' or 'wss://'")
    }
}

} // verus!
