//! Building strings: appending characters and text, comparing texts, and
//! formatting numbers and durations.

use vstd::prelude::*;
use vstd::string::*;

verus! {

/// Calls `String::push`.
///
/// Trusted: per std's documentation, `push` appends `c` to the end of the
/// string.
#[verifier::external_body]
pub(crate) fn push_char(s: &mut String, c: char)
    ensures
        final(s)@ == old(s)@.push(c),
{
    s.push(c)
}

/// The characters of `s`, in order.
pub fn chars_of(s: &str) -> (v: Vec<char>)
    ensures
        v@ == s@,
{
    let mut v: Vec<char> = Vec::new();
    for c in it: s.chars()
        invariant
            v@ == it.seq().take(it.index() as int),
    {
        v.push(c);
    }
    v
}

/// `a` followed by `b`, as a new string.
pub fn concat_text(a: &str, b: &str) -> (r: String)
    ensures
        r@ == a@ + b@,
{
    let mut r = a.to_owned();
    r.append(b);
    r
}

/// Whether `s` contains the character `c`.
pub fn contains_char(s: &str, c: char) -> (r: bool)
    ensures
        r == s@.contains(c),
{
    let cs = chars_of(s);
    let n = cs.len();
    let mut i: usize = 0;
    while i < n
        invariant
            n == s@.len(),
            cs@ == s@,
            i <= n,
            forall|j: int| 0 <= j < i ==> s@[j] != c,
        decreases n - i,
    {
        if cs[i] == c {
            assert(s@[i as int] == c);
            return true;
        }
        i = i + 1;
    }
    false
}

/// Whether `a` and `b` hold the same characters.
pub fn same_text(a: &str, b: &str) -> (r: bool)
    ensures
        r == (a@ == b@),
{
    let xs = chars_of(a);
    let ys = chars_of(b);
    let n = xs.len();
    if n != ys.len() {
        return false;
    }
    let mut i: usize = 0;
    while i < n
        invariant
            n == a@.len(),
            n == b@.len(),
            xs@ == a@,
            ys@ == b@,
            i <= n,
            forall|j: int| 0 <= j < i ==> a@[j] == b@[j],
        decreases n - i,
    {
        if xs[i] != ys[i] {
            return false;
        }
        i = i + 1;
    }
    assert(a@ =~= b@);
    true
}

/// The decimal digit character for `d`.
pub open spec fn digit_char(d: nat) -> char {
    ((48 + d) as u8) as char
}

/// Decimal notation of `n`, without leading zeros.
pub open spec fn decimal(n: nat) -> Seq<char>
    decreases n,
{
    if n < 10 {
        seq![digit_char(n)]
    } else {
        decimal(n / 10).push(digit_char(n % 10))
    }
}

/// Decimal notation of a number never has more than 20 digits.
pub proof fn lemma_decimal_len(n: nat)
    requires
        n <= u64::MAX,
    ensures
        1 <= decimal(n).len() <= 20,
{
    reveal_with_fuel(pow10, 21);
    lemma_decimal_len_bound(n, 20);
}

/// A number below `10^k` has at most `k` digits.
pub proof fn lemma_decimal_len_bound(n: nat, k: nat)
    requires
        k >= 1,
        n < pow10(k),
    ensures
        1 <= decimal(n).len() <= k,
    decreases k,
{
    reveal_with_fuel(pow10, 2);
    if n >= 10 {
        lemma_decimal_len_bound(n / 10, (k - 1) as nat);
    }
}

/// Ten to the power `k`.
pub open spec fn pow10(k: nat) -> nat
    decreases k,
{
    if k == 0 {
        1
    } else {
        10 * pow10((k - 1) as nat)
    }
}

/// The decimal notation of `n`.
pub fn decimal_string(n: u64) -> (r: String)
    ensures
        r@ == decimal(n as nat),
    decreases n,
{
    let d = n % 10;
    let c = ((48 + d) as u8) as char;
    if n < 10 {
        let mut r = String::new();
        push_char(&mut r, c);
        assert(r@ =~= decimal(n as nat));
        r
    } else {
        let mut r = decimal_string(n / 10);
        push_char(&mut r, c);
        r
    }
}

/// Short human form of a duration of `secs` seconds: seconds alone under a
/// minute (`42s`), minutes and seconds under an hour (`2m5s`), else hours and
/// minutes (`3h7m`).
pub open spec fn duration_text(secs: nat) -> Seq<char> {
    if secs < 60 {
        decimal(secs).push('s')
    } else if secs < 3600 {
        decimal(secs / 60).push('m') + decimal(secs % 60).push('s')
    } else {
        decimal(secs / 3600).push('h') + decimal((secs % 3600) / 60).push('m')
    }
}

/// Time since `started_at` as of `now` (nothing when there is no start
/// time; a start time after `now` counts as no time elapsed).
pub open spec fn elapsed_text(started_at: Option<u64>, now: u64) -> Seq<char> {
    match started_at {
        Some(t) => duration_text(
            if now >= t {
                (now - t) as nat
            } else {
                0
            },
        ),
        None => Seq::empty(),
    }
}

/// An elapsed-time label never has more than 42 characters.
pub proof fn lemma_elapsed_text_len(started_at: Option<u64>, now: u64)
    ensures
        elapsed_text(started_at, now).len() <= 42,
{
    if let Some(t) = started_at {
        let secs: nat = if now >= t {
            (now - t) as nat
        } else {
            0
        };
        lemma_decimal_len(secs);
        lemma_decimal_len(secs / 60);
        lemma_decimal_len(secs % 60);
        lemma_decimal_len(secs / 3600);
        lemma_decimal_len((secs % 3600) / 60);
    }
}

/// The label of the time elapsed since `started_at`, as of `now`.
pub fn elapsed_label(started_at: Option<u64>, now: u64) -> (r: String)
    ensures
        r@ == elapsed_text(started_at, now),
{
    match started_at {
        None => String::new(),
        Some(t) => {
            let secs = now.saturating_sub(t);
            if secs < 60 {
                let mut r = decimal_string(secs);
                push_char(&mut r, 's');
                r
            } else if secs < 3600 {
                let mut a = decimal_string(secs / 60);
                push_char(&mut a, 'm');
                let mut b = decimal_string(secs % 60);
                push_char(&mut b, 's');
                concat_text(a.as_str(), b.as_str())
            } else {
                let mut a = decimal_string(secs / 3600);
                push_char(&mut a, 'h');
                let mut b = decimal_string((secs % 3600) / 60);
                push_char(&mut b, 'm');
                concat_text(a.as_str(), b.as_str())
            }
        },
    }
}

/// Text shown for a wait reason: known reasons get a phrase, others are
/// shown as they are.
pub open spec fn wait_label_text(reason: Seq<char>) -> Seq<char> {
    if reason == "permission_prompt"@ {
        "permission required"@
    } else {
        reason
    }
}

/// The text shown for the reason an agent waits.
pub fn wait_reason_label(reason: &str) -> (r: String)
    ensures
        r@ == wait_label_text(reason@),
{
    if same_text(reason, "permission_prompt") {
        "permission required".to_owned()
    } else {
        reason.to_owned()
    }
}

/// A 16-bit number has at most five digits.
pub proof fn lemma_decimal_len_u16(n: u16)
    ensures
        1 <= decimal(n as nat).len() <= 5,
{
    reveal_with_fuel(pow10, 6);
    lemma_decimal_len_bound(n as nat, 5);
}

} // verus!
