//! Names of saved files, derived from a hash of the task: the lower 32 bits
//! of the xxHash3 (64-bit, default seed) of the task, in lower-case hex.
use vstd::prelude::*;
use crate::text::{cat, cat3, string_of};

verus! {

/// The xxHash3-64 hash (default seed) that `std::hash::Hash` feeds a task
/// string into (the string's bytes, then `0xff`).
pub uninterp spec fn xxh3_of_task(task: Seq<char>) -> u64;

/// Hash a task with `twox_hash::XxHash3_64::default()` through
/// `std::hash::Hash`, and `Hasher::finish`. The hash function itself is only
/// named here.
#[verifier::external_body]
fn hash_task(task: &str) -> (r: u64)
    ensures
        r == xxh3_of_task(task@),
{
    let mut h = twox_hash::XxHash3_64::default();
    std::hash::Hash::hash(task, &mut h);
    std::hash::Hasher::finish(&h)
}

/// The lower-case hex digit for `d < 16`.
pub open spec fn hex_digit(d: nat) -> char {
    if d < 10 {
        (('0' as u32) + d) as char
    } else {
        (('a' as u32) + (d - 10)) as char
    }
}

/// The lower-case hex notation of `n`, without leading zeros (`{:x}`).
pub open spec fn hex_text(n: nat) -> Seq<char>
    decreases n,
{
    if n < 16 {
        seq![hex_digit(n)]
    } else {
        hex_text(n / 16).push(hex_digit(n % 16))
    }
}

/// The value of one lower-case hex digit.
pub open spec fn hex_digit_value(c: char) -> int {
    if c <= '9' {
        c as int - '0' as int
    } else {
        c as int - 'a' as int + 10
    }
}

/// The number a run of lower-case hex digits stands for.
pub open spec fn hex_value(s: Seq<char>) -> int
    decreases s.len(),
{
    if s.len() == 0 {
        0
    } else {
        hex_value(s.drop_last()) * 16 + hex_digit_value(s.last())
    }
}

/// A lower-case hex digit: `'0'`..`'9'` or `'a'`..`'f'`.
pub open spec fn is_hex_digit(c: char) -> bool {
    ('0' <= c && c <= '9') || ('a' <= c && c <= 'f')
}

proof fn lemma_hex_digit_value(d: nat)
    requires
        d < 16,
    ensures
        is_hex_digit(hex_digit(d)),
        hex_digit_value(hex_digit(d)) == d,
{
}

/// The hex notation of `n` is a non-empty run of lower-case hex digits that
/// stands for `n`, with no leading zero unless `n` is zero.
pub proof fn lemma_hex_law(n: nat)
    ensures
        hex_text(n).len() >= 1,
        forall|k: int| 0 <= k < hex_text(n).len() ==> is_hex_digit(#[trigger] hex_text(n)[k]),
        hex_value(hex_text(n)) == n,
        hex_text(n)[0] == '0' ==> n == 0,
    decreases n,
{
    lemma_hex_digit_value((n % 16) as nat);
    let d = hex_text(n);
    if n < 16 {
        assert(d.drop_last() =~= Seq::<char>::empty());
        assert(hex_value(d) == hex_value(d.drop_last()) * 16 + hex_digit_value(d.last()));
    } else {
        let t = hex_text(n / 16);
        lemma_hex_law(n / 16);
        assert(d == t.push(hex_digit(n % 16)));
        assert(d.drop_last() =~= t);
        assert forall|k: int| 0 <= k < d.len() implies is_hex_digit(#[trigger] d[k]) by {
            if k < t.len() {
                assert(d[k] == t[k]);
            }
        }
        assert(d[0] == t[0]);
    }
}

fn hex_char(d: u64) -> (c: char)
    requires
        d < 16,
    ensures
        c == hex_digit(d as nat),
{
    let digits: [char; 16] = ['0', '1', '2', '3', '4', '5', '6', '7', '8', '9', 'a', 'b', 'c', 'd', 'e', 'f'];
    let c = digits[d as usize];
    proof {
        assert(digits@ == seq!['0', '1', '2', '3', '4', '5', '6', '7', '8', '9', 'a', 'b', 'c', 'd', 'e', 'f']);
    }
    c
}

/// The lower-case hex notation of `n`.
pub fn hex(n: u64) -> (r: String)
    ensures
        r@ == hex_text(n as nat),
    decreases n,
{
    let c = hex_char(n % 16);
    let v = vec![c];
    let last = string_of(v.as_slice());
    if n < 16 {
        last
    } else {
        let mut s = hex(n / 16);
        s.append(last.as_str());
        s
    }
}

/// The hex of the lower 32 bits of the task's hash.
pub open spec fn task_tag(task: Seq<char>) -> Seq<char> {
    hex_text((xxh3_of_task(task) % 0x1_0000_0000) as nat)
}

/// The hex of the lower 32 bits of the task's hash.
pub fn task_hash_tag(task: &str) -> (r: String)
    ensures
        r@ == task_tag(task@),
{
    let h = hash_task(task);
    let low = h & 0xFFFF_FFFF;
    assert(h & 0xFFFF_FFFF == h % 0x1_0000_0000) by (bit_vector);
    hex(low)
}

/// The file stem under which an agent saves a task's state:
/// `"<agent>_<tag>"` (the caller adds the directory and the `json` extension).
pub fn state_file_stem(agent_name: &str, task: &str) -> (r: String)
    ensures
        r@ == agent_name@ + "_"@ + task_tag(task@),
{
    let t = task_hash_tag(task);
    cat3(agent_name, "_", t.as_str())
}

/// The file name under which a sequential workflow saves a task's metadata:
/// `"<tag>.json"`.
pub fn metadata_file_name(task: &str) -> (r: String)
    ensures
        r@ == task_tag(task@) + ".json"@,
{
    let t = task_hash_tag(task);
    cat(t.as_str(), ".json")
}

} // verus!
