//! Membership snapshot codec.
//!
//! Opt-in state is persisted as one file per community holding a JSON array
//! of the currently active user identifiers. The writer emits the compact
//! form with each identifier as a digit string, e.g. `["3","17"]` — the
//! platform's own serialized form for user ids. The reader accepts a JSON
//! array with whitespace between tokens and with each identifier written
//! either as a bare integer or as a quoted digit string, and reports
//! anything else as malformed, which the session bootstrap treats as fatal
//! rather than silently dropping prior opt-ins.
use vstd::prelude::*;

verus! {

/// ASCII decimal digit byte.
pub open spec fn is_digit_byte(b: u8) -> bool {
    48 <= b <= 57
}

/// JSON whitespace byte: space, tab, line feed or carriage return.
pub open spec fn is_ws_byte(b: u8) -> bool {
    b == 32 || b == 9 || b == 10 || b == 13
}

/// Decimal digits of `n`, most significant first (a single `0` for zero).
pub open spec fn dec_digits(n: nat) -> Seq<u8>
    decreases n,
{
    if n < 10 {
        seq![(48 + n) as u8]
    } else {
        dec_digits(n / 10).push((48 + n % 10) as u8)
    }
}

/// One identifier as written: its digits in double quotes.
pub open spec fn quoted_id(v: u64) -> Seq<u8> {
    seq![34u8] + dec_digits(v as nat) + seq![34u8]
}

/// The quoted ids joined by commas.
pub open spec fn ids_body(ids: Seq<u64>) -> Seq<u8>
    decreases ids.len(),
{
    if ids.len() == 0 {
        Seq::empty()
    } else if ids.len() == 1 {
        quoted_id(ids[0])
    } else {
        ids_body(ids.drop_last()) + seq![44u8] + quoted_id(ids.last())
    }
}

/// The canonical snapshot encoding: `[` quoted ids `]` with no whitespace.
pub open spec fn snapshot_json(ids: Seq<u64>) -> Seq<u8> {
    seq![91u8] + ids_body(ids) + seq![93u8]
}

/// First position at or after `i` holding a non-whitespace byte (or the
/// end).
pub open spec fn skip_ws(s: Seq<u8>, i: int) -> int
    decreases s.len() - i when 0 <= i <= s.len()
{
    if 0 <= i < s.len() && is_ws_byte(s[i]) {
        skip_ws(s, i + 1)
    } else {
        i
    }
}

proof fn lemma_skip_ws_bounds(s: Seq<u8>, i: int)
    requires
        0 <= i <= s.len(),
    ensures
        i <= skip_ws(s, i) <= s.len(),
        skip_ws(s, i) < s.len() ==> !is_ws_byte(s[skip_ws(s, i)]),
    decreases s.len() - i,
{
    if i < s.len() && is_ws_byte(s[i]) {
        lemma_skip_ws_bounds(s, i + 1);
    }
}

/// First position at or after `i` holding a non-digit (or the end).
pub open spec fn digit_end(s: Seq<u8>, i: int) -> int
    decreases s.len() - i when 0 <= i <= s.len()
{
    if 0 <= i < s.len() && is_digit_byte(s[i]) {
        digit_end(s, i + 1)
    } else {
        i
    }
}

proof fn lemma_digit_end_bounds(s: Seq<u8>, i: int)
    requires
        0 <= i <= s.len(),
    ensures
        i <= digit_end(s, i) <= s.len(),
        forall|t: int| i <= t < digit_end(s, i) ==> is_digit_byte(#[trigger] s[t]),
        digit_end(s, i) < s.len() ==> !is_digit_byte(s[digit_end(s, i)]),
    decreases s.len() - i,
{
    if i < s.len() && is_digit_byte(s[i]) {
        lemma_digit_end_bounds(s, i + 1);
    }
}

/// Value of the digit run `s[i..e)`.
pub open spec fn bytes_val(s: Seq<u8>, i: int, e: int) -> nat
    decreases e - i,
{
    if e <= i {
        0
    } else {
        bytes_val(s, i, e - 1) * 10 + (s[e - 1] - 48) as nat
    }
}

proof fn lemma_bytes_val_grows(s: Seq<u8>, i: int, t: int, e: int)
    requires
        i <= t <= e,
    ensures
        bytes_val(s, i, t) <= bytes_val(s, i, e),
    decreases e - t,
{
    if t < e {
        lemma_bytes_val_grows(s, i, t, e - 1);
        assert(bytes_val(s, i, e - 1) * 10 >= bytes_val(s, i, e - 1));
    }
}

#[via_fn]
proof fn parse_items_dec(s: Seq<u8>, i: int, acc: Seq<u64>) {
    let quoted = 0 <= i < s.len() && s[i] == 34;
    let dstart = if quoted { i + 1 } else { i };
    lemma_digit_end_bounds(s, dstart);
    let e = digit_end(s, dstart);
    let p = if quoted { e + 1 } else { e };
    if 0 <= p <= s.len() {
        lemma_skip_ws_bounds(s, p);
        let j = skip_ws(s, p);
        if j + 1 <= s.len() {
            lemma_skip_ws_bounds(s, j + 1);
        }
    }
}

/// Parses the comma-separated identifiers of a snapshot from position `i`
/// (which must hold an identifier: a digit run, bare or in double quotes) up
/// to the closing bracket, allowing whitespace between tokens; `None` when
/// `s` does not have that shape, a value does not fit in 64 bits, or
/// anything but whitespace follows the bracket.
pub open spec fn parse_items(s: Seq<u8>, i: int, acc: Seq<u64>) -> Option<Seq<u64>>
    decreases s.len() - i when 0 <= i <= s.len() via parse_items_dec
{
    let quoted = 0 <= i < s.len() && s[i] == 34;
    let dstart = if quoted { i + 1 } else { i };
    let e = digit_end(s, dstart);
    let ok = e > dstart && bytes_val(s, dstart, e) <= u64::MAX && (!quoted || (e < s.len() && s[e]
        == 34));
    if !ok {
        None
    } else {
        let acc2 = acc.push(bytes_val(s, dstart, e) as u64);
        let p = if quoted { e + 1 } else { e };
        let j = skip_ws(s, p);
        if j < s.len() && s[j] == 44 {
            parse_items(s, skip_ws(s, j + 1), acc2)
        } else if j < s.len() && s[j] == 93 {
            if skip_ws(s, j + 1) == s.len() {
                Some(acc2)
            } else {
                None
            }
        } else {
            None
        }
    }
}

/// Deterministic parse of a snapshot: the ids it encodes, or `None` when
/// the bytes are not a JSON array of identifiers in the accepted forms.
pub open spec fn parse_snapshot_spec(s: Seq<u8>) -> Option<Seq<u64>> {
    let i = skip_ws(s, 0);
    if i < s.len() && s[i] == 91 {
        let j = skip_ws(s, i + 1);
        if j < s.len() && s[j] == 93 {
            if skip_ws(s, j + 1) == s.len() {
                Some(Seq::empty())
            } else {
                None
            }
        } else {
            parse_items(s, j, Seq::empty())
        }
    } else {
        None
    }
}

/// A snapshot that cannot be decoded; bootstrap treats this as fatal.
pub struct SnapshotError {}

/// Appends the decimal digits of `n`.
fn push_dec(out: &mut Vec<u8>, n: u64)
    ensures
        final(out)@ == old(out)@ + dec_digits(n as nat),
    decreases n,
{
    if n < 10 {
        out.push(48 + (n as u8));
        proof {
            assert(out@ =~= old(out)@ + dec_digits(n as nat));
        }
    } else {
        push_dec(out, n / 10);
        out.push(48 + ((n % 10) as u8));
        proof {
            assert(out@ =~= old(out)@ + dec_digits(n as nat));
        }
    }
}

/// Encodes an id list in the canonical snapshot form.
pub fn encode_snapshot(ids: &Vec<u64>) -> (r: Vec<u8>)
    ensures
        r@ == snapshot_json(ids@),
{
    let mut out: Vec<u8> = Vec::new();
    out.push(91);
    let n = ids.len();
    let mut k: usize = 0;
    while k < n
        invariant
            k <= n,
            n == ids@.len(),
            out@ == seq![91u8] + ids_body(ids@.subrange(0, k as int)),
        decreases n - k,
    {
        if k > 0 {
            out.push(44);
        }
        out.push(34);
        push_dec(&mut out, ids[k]);
        out.push(34);
        k = k + 1;
        proof {
            let cur = ids@.subrange(0, k as int);
            assert(cur.drop_last() =~= ids@.subrange(0, k - 1));
            assert(cur.last() == ids@[k - 1]);
            assert(out@ =~= seq![91u8] + ids_body(cur));
        }
    }
    out.push(93);
    proof {
        assert(ids@.subrange(0, n as int) =~= ids@);
        assert(out@ =~= snapshot_json(ids@));
    }
    out
}

/// First index at or after `i` holding a non-digit byte.
fn digit_end_exec(s: &Vec<u8>, i: usize) -> (r: usize)
    requires
        i <= s@.len(),
    ensures
        r == digit_end(s@, i as int),
        i <= r <= s@.len(),
{
    let n = s.len();
    let mut t: usize = i;
    while t < n && 48 <= s[t] && s[t] <= 57
        invariant
            i <= t <= n,
            n == s@.len(),
            digit_end(s@, i as int) == digit_end(s@, t as int),
        decreases n - t,
    {
        t = t + 1;
    }
    t
}

/// First index at or after `i` holding a non-whitespace byte.
fn skip_ws_exec(s: &Vec<u8>, i: usize) -> (r: usize)
    requires
        i <= s@.len(),
    ensures
        r == skip_ws(s@, i as int),
        i <= r <= s@.len(),
{
    let n = s.len();
    let mut t: usize = i;
    while t < n && (s[t] == 32 || s[t] == 9 || s[t] == 10 || s[t] == 13)
        invariant
            i <= t <= n,
            n == s@.len(),
            skip_ws(s@, i as int) == skip_ws(s@, t as int),
        decreases n - t,
    {
        t = t + 1;
    }
    t
}

/// Decodes a snapshot. Returns the encoded ids exactly when the bytes
/// parse, and `SnapshotError` exactly when they do not.
pub fn parse_snapshot(bytes: &Vec<u8>) -> (r: Result<Vec<u64>, SnapshotError>)
    ensures
        match r {
            Ok(ids) => parse_snapshot_spec(bytes@) == Some(ids@),
            Err(_) => parse_snapshot_spec(bytes@) is None,
        },
{
    let n = bytes.len();
    let start = skip_ws_exec(bytes, 0);
    if start >= n || bytes[start] != 91 {
        return Err(SnapshotError {});
    }
    let first = skip_ws_exec(bytes, start + 1);
    if first < n && bytes[first] == 93 {
        if skip_ws_exec(bytes, first + 1) == n {
            return Ok(Vec::new());
        } else {
            return Err(SnapshotError {});
        }
    }
    let mut acc: Vec<u64> = Vec::new();
    let mut i: usize = first;
    while i < n
        invariant
            i <= n,
            n == bytes@.len(),
            parse_snapshot_spec(bytes@) == parse_items(bytes@, i as int, acc@),
        decreases n - i,
    {
        let quoted = bytes[i] == 34;
        let dstart = if quoted {
            i + 1
        } else {
            i
        };
        let e = digit_end_exec(bytes, dstart);
        proof {
            lemma_digit_end_bounds(bytes@, dstart as int);
        }
        if e == dstart {
            return Err(SnapshotError {});
        }
        // accumulate the value of bytes[dstart..e), watching for overflow
        let mut v: u64 = 0;
        let mut t: usize = dstart;
        let mut overflow = false;
        while t < e
            invariant
                dstart <= t <= e <= n,
                n == bytes@.len(),
                e == digit_end(bytes@, dstart as int),
                forall|k: int| dstart <= k < e ==> is_digit_byte(#[trigger] bytes@[k]),
                !overflow ==> v == bytes_val(bytes@, dstart as int, t as int),
                overflow ==> bytes_val(bytes@, dstart as int, t as int) > u64::MAX,
            decreases e - t,
        {
            let d = bytes[t] - 48;
            if !overflow {
                let step = match v.checked_mul(10) {
                    Some(m) => m.checked_add(d as u64),
                    None => None,
                };
                match step {
                    Some(w) => {
                        v = w;
                    }
                    None => {
                        overflow = true;
                    }
                }
            }
            t = t + 1;
            proof {
                assert(bytes_val(bytes@, dstart as int, t as int) == bytes_val(
                    bytes@,
                    dstart as int,
                    t - 1,
                ) * 10 + (bytes@[t - 1] - 48) as nat);
            }
        }
        if overflow {
            proof {
                lemma_bytes_val_grows(bytes@, dstart as int, t as int, e as int);
            }
            return Err(SnapshotError {});
        }
        if quoted && !(e < n && bytes[e] == 34) {
            return Err(SnapshotError {});
        }
        let p = if quoted {
            e + 1
        } else {
            e
        };
        let j = skip_ws_exec(bytes, p);
        let ghost pre_acc = acc@;
        acc.push(v);
        if j < n && bytes[j] == 44 {
            let next = skip_ws_exec(bytes, j + 1);
            proof {
                assert(parse_items(bytes@, i as int, pre_acc) == parse_items(
                    bytes@,
                    next as int,
                    acc@,
                ));
            }
            i = next;
        } else if j < n && bytes[j] == 93 {
            if skip_ws_exec(bytes, j + 1) == n {
                return Ok(acc);
            } else {
                return Err(SnapshotError {});
            }
        } else {
            return Err(SnapshotError {});
        }
    }
    // an identifier can never start at the end of the input
    proof {
        assert(digit_end(bytes@, i as int) == i);
    }
    Err(SnapshotError {})
}

proof fn lemma_dec_digits_wf(n: nat)
    ensures
        dec_digits(n).len() >= 1,
        forall|k: int| 0 <= k < dec_digits(n).len() ==> is_digit_byte(#[trigger] dec_digits(n)[k]),
    decreases n,
{
    if n >= 10 {
        lemma_dec_digits_wf(n / 10);
    }
}

proof fn lemma_digit_end_run(s: Seq<u8>, i: int, m: int)
    requires
        0 <= i,
        0 <= m,
        i + m < s.len(),
        forall|t: int| i <= t < i + m ==> is_digit_byte(#[trigger] s[t]),
        !is_digit_byte(s[i + m]),
    ensures
        digit_end(s, i) == i + m,
    decreases m,
{
    if m > 0 {
        assert(is_digit_byte(s[i]));
        lemma_digit_end_run(s, i + 1, m - 1);
    }
}

proof fn lemma_bytes_val_of_dec(s: Seq<u8>, i: int, v: nat)
    requires
        0 <= i,
        i + dec_digits(v).len() <= s.len(),
        s.subrange(i, i + dec_digits(v).len() as int) == dec_digits(v),
    ensures
        bytes_val(s, i, i + dec_digits(v).len() as int) == v,
    decreases v,
{
    let d = dec_digits(v);
    let e = i + d.len() as int;
    if v < 10 {
        assert(s[i] == d[0]);
        assert(bytes_val(s, i, e) == bytes_val(s, i, i) * 10 + (s[i] - 48) as nat);
    } else {
        let d0 = dec_digits(v / 10);
        lemma_dec_digits_wf(v / 10);
        assert(d == d0.push((48 + v % 10) as u8));
        assert(s.subrange(i, e - 1) =~= d0) by {
            assert forall|k: int| 0 <= k < d0.len() implies s.subrange(i, e - 1)[k] == d0[k] by {
                assert(s.subrange(i, e)[k] == d[k]);
            }
        }
        lemma_bytes_val_of_dec(s, i, v / 10);
        assert(s[e - 1] == d[d.len() - 1]);
        assert(s[e - 1] == (48 + v % 10) as u8);
        vstd::arithmetic::div_mod::lemma_fundamental_div_mod(v as int, 10);
        assert(bytes_val(s, i, e) == (v / 10) * 10 + v % 10);
    }
}

/// The items of a non-empty id list as the parser walks them: the first
/// id's quoted digits, then either the closing bracket or a comma and the
/// rest.
spec fn items_tail(ids: Seq<u64>) -> Seq<u8>
    decreases ids.len(),
{
    if ids.len() <= 1 {
        quoted_id(ids[0]) + seq![93u8]
    } else {
        quoted_id(ids[0]) + seq![44u8] + items_tail(ids.drop_first())
    }
}

proof fn lemma_body_left(ids: Seq<u64>)
    requires
        ids.len() >= 2,
    ensures
        ids_body(ids) == quoted_id(ids[0]) + seq![44u8] + ids_body(ids.drop_first()),
    decreases ids.len(),
{
    if ids.len() == 2 {
        assert(ids.drop_last() =~= ids.subrange(0, 1));
        assert(ids.drop_first() =~= ids.subrange(1, 2));
        assert(ids_body(ids.drop_last()) == quoted_id(ids[0]));
        assert(ids_body(ids.drop_first()) == quoted_id(ids[1]));
        assert(ids.drop_first().len() == 1);
    } else {
        let front = ids.drop_last();
        lemma_body_left(front);
        assert(front.drop_first() =~= ids.drop_first().drop_last());
        assert(ids.drop_first().len() >= 2);
        assert(ids.drop_first().last() == ids.last());
        assert(ids_body(ids.drop_first()) == ids_body(ids.drop_first().drop_last()) + seq![44u8]
            + quoted_id(ids.last()));
        assert(ids_body(ids) == ids_body(front) + seq![44u8] + quoted_id(ids.last()));
        assert(ids_body(ids) =~= quoted_id(ids[0]) + seq![44u8] + ids_body(ids.drop_first()));
    }
}

proof fn lemma_tail_is_body(ids: Seq<u64>)
    requires
        ids.len() >= 1,
    ensures
        items_tail(ids) == ids_body(ids) + seq![93u8],
    decreases ids.len(),
{
    if ids.len() == 1 {
        assert(items_tail(ids) =~= ids_body(ids) + seq![93u8]);
    } else {
        lemma_tail_is_body(ids.drop_first());
        lemma_body_left(ids);
        assert(items_tail(ids) =~= ids_body(ids) + seq![93u8]);
    }
}

proof fn lemma_parse_items_of_tail(s: Seq<u8>, i: int, acc: Seq<u64>, ids: Seq<u64>)
    requires
        0 <= i <= s.len(),
        ids.len() >= 1,
        s.subrange(i, s.len() as int) == items_tail(ids),
    ensures
        parse_items(s, i, acc) == Some(acc + ids),
    decreases ids.len(),
{
    let v = ids[0] as nat;
    let d = dec_digits(v);
    let m = d.len() as int;
    lemma_dec_digits_wf(v);
    let tail = s.subrange(i, s.len() as int);
    assert(tail.len() >= m + 3);
    assert(s[i] == tail[0]);
    assert(tail[0] == 34);
    let dstart = i + 1;
    assert forall|t: int| dstart <= t < dstart + m implies is_digit_byte(#[trigger] s[t]) by {
        assert(s[t] == tail[t - i]);
        assert(tail[t - i] == d[t - i - 1]);
    }
    assert(s[dstart + m] == tail[m + 1]);
    assert(tail[m + 1] == 34);
    assert(!is_digit_byte(s[dstart + m]));
    lemma_digit_end_run(s, dstart, m);
    let e = dstart + m;
    assert(s.subrange(dstart, e) =~= d) by {
        assert forall|k: int| 0 <= k < m implies s.subrange(dstart, e)[k] == d[k] by {
            assert(s.subrange(dstart, e)[k] == tail[k + 1]);
        }
    }
    lemma_bytes_val_of_dec(s, dstart, v);
    assert(bytes_val(s, dstart, e) == v);
    assert(v <= u64::MAX);
    let p = e + 1;
    assert(s[p] == tail[m + 2]);
    assert(tail[m + 2] == (if ids.len() == 1 {
        93u8
    } else {
        44u8
    }));
    assert(skip_ws(s, p) == p);
    let acc2 = acc.push(ids[0]);
    if ids.len() == 1 {
        assert(s[p] == 93);
        assert(p + 1 == s.len());
        assert(skip_ws(s, p + 1) == p + 1);
        assert(parse_items(s, i, acc) == Some(acc2));
        assert(acc2 =~= acc + ids);
    } else {
        assert(s[p] == 44);
        let rest = ids.drop_first();
        lemma_dec_digits_wf(rest[0] as nat);
        assert(items_tail(rest).len() >= 4);
        assert(tail.len() == m + 3 + items_tail(rest).len());
        assert(s[p + 1] == tail[m + 3]);
        assert(tail[m + 3] == items_tail(rest)[0]);
        assert(items_tail(rest)[0] == 34);
        assert(skip_ws(s, p + 1) == p + 1);
        assert(s.subrange(p + 1, s.len() as int) =~= items_tail(rest)) by {
            assert forall|k: int| 0 <= k < s.len() - (p + 1) implies s.subrange(
                p + 1,
                s.len() as int,
            )[k] == items_tail(rest)[k] by {
                assert(s.subrange(p + 1, s.len() as int)[k] == tail[m + 3 + k]);
                assert(tail[m + 3 + k] == items_tail(rest)[k]);
            }
        }
        lemma_parse_items_of_tail(s, p + 1, acc2, rest);
        assert(parse_items(s, i, acc) == Some(acc2 + rest));
        assert(acc2 + rest =~= acc + ids);
    }
}

/// The codec round trip: parsing an encoded snapshot yields exactly the ids
/// that were encoded, so membership persisted on shutdown is restored intact
/// at bootstrap.
pub proof fn lemma_snapshot_round_trip(ids: Seq<u64>)
    ensures
        parse_snapshot_spec(snapshot_json(ids)) == Some(ids),
{
    let s = snapshot_json(ids);
    assert(s[0] == 91);
    assert(skip_ws(s, 0) == 0);
    if ids.len() == 0 {
        assert(s.len() == 2);
        assert(s[1] == 93);
        assert(skip_ws(s, 1) == 1);
        assert(skip_ws(s, 2) == 2);
        assert(parse_snapshot_spec(s) == Some(Seq::<u64>::empty()));
        assert(ids =~= Seq::<u64>::empty());
    } else {
        lemma_tail_is_body(ids);
        assert(s.subrange(1, s.len() as int) =~= items_tail(ids));
        lemma_dec_digits_wf(ids[0] as nat);
        assert(s[1] == items_tail(ids)[0]);
        assert(items_tail(ids)[0] == 34);
        assert(skip_ws(s, 1) == 1);
        assert(s[1] != 93);
        lemma_parse_items_of_tail(s, 1, Seq::<u64>::empty(), ids);
        assert(Seq::<u64>::empty() + ids =~= ids);
    }
}

} // verus!
