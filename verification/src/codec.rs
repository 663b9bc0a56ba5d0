//! The wire codec for peer-to-peer messages.
//!
//! A message travels as the UTF-8 JSON text of one single-key object, the
//! key naming the message kind:
//!
//! ```text
//! {"PeerInfo":   {"node_id": string, "listen_addr": string}}
//! {"Proposal":   {"proposer_id": string, "round": uint64, "block": string}}
//! {"Prevote":    {"voter_id": string, "round": uint64, "block_hash": string}}
//! {"Precommit":  {"voter_id": string, "round": uint64, "block_hash": string}}
//! {"Commit":     {"block_hash": string, "round": uint64}}
//! ```
//!
//! [`spec_encode`] fixes one text per message value: fields in the order
//! above, no blanks between tokens, numbers in decimal without leading
//! zeros, and within a string the quote, the backslash and the control
//! characters written as `\u00` followed by two lowercase hex digits.
//! [`encode_message`] produces exactly that text and [`decode_message`]
//! accepts exactly the texts that [`spec_encode`] can produce, so that
//! decoding an encoded message gives the message back, field for field.
//!
//! Fixing one canonical text per message, on both sides of the wire, is a
//! deliberate decision of this codec.  JSON admits other spellings of the
//! same object — blanks between tokens, reordered fields, `\"`- or
//! `\uXXXX`-style escapes — and a peer that sends one of those is refused
//! here, although a general JSON reader would accept it.  Ids, addresses
//! and block names that contain no character needing an escape read the
//! same either way, so nodes built on this codec interoperate; what is
//! given up is lenience toward peers that spell the schema differently.
//! In exchange the codec is deterministic in both directions, and the
//! round-trip and injectivity theorems below pin it completely.

use vstd::prelude::*;
use vstd::string::StrSliceExecFns;
use vstd::string::StringExecFns;

use crate::message::{MessageView, P2PMessage};

verus! {

/// Relies on `String::push`: it appends the given character to the end of
/// the string.
pub assume_specification[ String::push ](s: &mut String, c: char)
    ensures
        final(s)@ == old(s)@.push(c),
;

// ---------------------------------------------------------------------------
// The encoding, as a specification
// ---------------------------------------------------------------------------

/// The characters that must be written escaped inside a JSON string.
pub open spec fn needs_escape(c: char) -> bool {
    c == '"' || c == '\\' || (c as int) < 0x20
}

/// The lowercase hex digit of a value below 16.
pub open spec fn hex_digit(n: int) -> char {
    if n < 10 {
        (n + 48) as char
    } else {
        (n + 87) as char
    }
}

/// The characters written for one character of a string field.
pub open spec fn esc_char(c: char) -> Seq<char> {
    if needs_escape(c) {
        seq!['\\', 'u', '0', '0', hex_digit((c as int) / 16), hex_digit((c as int) % 16)]
    } else {
        seq![c]
    }
}

/// The characters written for a whole string field.
pub open spec fn esc(s: Seq<char>) -> Seq<char>
    decreases s.len(),
{
    if s.len() == 0 {
        Seq::empty()
    } else {
        esc_char(s[0]) + esc(s.drop_first())
    }
}

/// A string field as it stands in the text: its escaped characters followed
/// by the closing quote.  The opening quote belongs to the text before the
/// field.
pub open spec fn jstr(s: Seq<char>) -> Seq<char> {
    esc(s) + seq!['"']
}

/// A round number in decimal, most significant digit first, no leading
/// zeros.
pub open spec fn dec_digits(n: u64) -> Seq<char>
    decreases n,
{
    if n < 10 {
        seq![hex_digit(n as int)]
    } else {
        dec_digits(n / 10) + seq![hex_digit((n % 10) as int)]
    }
}

/// The text before the first field of a `PeerInfo` message.
pub open spec fn peer_pre() -> Seq<char> {
    "{\"PeerInfo\":{\"node_id\":\""@
}

/// The text between the fields of a `PeerInfo` message.
pub open spec fn peer_mid() -> Seq<char> {
    ",\"listen_addr\":\""@
}

/// The text before the first field of a `Proposal` message.
pub open spec fn prop_pre() -> Seq<char> {
    "{\"Proposal\":{\"proposer_id\":\""@
}

/// The text before the round of a `Proposal` message.
pub open spec fn round_mid() -> Seq<char> {
    ",\"round\":"@
}

/// The text before the block of a `Proposal` message.
pub open spec fn block_mid() -> Seq<char> {
    ",\"block\":\""@
}

/// The text before the first field of a `Prevote` message.
pub open spec fn prev_pre() -> Seq<char> {
    "{\"Prevote\":{\"voter_id\":\""@
}

/// The text before the block hash of a `Prevote` or `Precommit` message.
pub open spec fn hash_mid() -> Seq<char> {
    ",\"block_hash\":\""@
}

/// The text before the first field of a `Precommit` message.
pub open spec fn prec_pre() -> Seq<char> {
    "{\"Precommit\":{\"voter_id\":\""@
}

/// The text before the first field of a `Commit` message.
pub open spec fn commit_pre() -> Seq<char> {
    "{\"Commit\":{\"block_hash\":\""@
}

/// The text closing every message object.
pub open spec fn obj_end() -> Seq<char> {
    "}}"@
}

/// The one text that stands for `m` on the wire.
pub open spec fn spec_encode(m: MessageView) -> Seq<char> {
    match m {
        MessageView::PeerInfo { node_id, listen_addr } => peer_pre() + jstr(node_id) + peer_mid()
            + jstr(listen_addr) + obj_end(),
        MessageView::Proposal { proposer_id, round, block } => prop_pre() + jstr(proposer_id)
            + round_mid() + dec_digits(round) + block_mid() + jstr(block) + obj_end(),
        MessageView::Prevote { voter_id, round, block_hash } => prev_pre() + jstr(voter_id)
            + round_mid() + dec_digits(round) + hash_mid() + jstr(block_hash) + obj_end(),
        MessageView::Precommit { voter_id, round, block_hash } => prec_pre() + jstr(voter_id)
            + round_mid() + dec_digits(round) + hash_mid() + jstr(block_hash) + obj_end(),
        MessageView::Commit { block_hash, round } => commit_pre() + jstr(block_hash) + round_mid()
            + dec_digits(round) + obj_end(),
    }
}

// ---------------------------------------------------------------------------
// The encoder
// ---------------------------------------------------------------------------

proof fn lemma_esc_snoc(s: Seq<char>, c: char)
    ensures
        esc(s.push(c)) == esc(s) + esc_char(c),
    decreases s.len(),
{
    if s.len() == 0 {
        assert(s.push(c)[0] == c);
        assert(s.push(c).drop_first() =~= Seq::<char>::empty());
        assert(esc(s.push(c)) == esc_char(c) + esc(Seq::<char>::empty()));
        assert(esc(s.push(c)) =~= esc(s) + esc_char(c));
    } else {
        assert(s.push(c).drop_first() =~= s.drop_first().push(c));
        lemma_esc_snoc(s.drop_first(), c);
        assert(esc(s.push(c)) =~= esc(s) + esc_char(c));
    }
}

/// The lowercase hex digit of a value below 16.
fn hex_char(v: u8) -> (c: char)
    requires
        v < 16,
    ensures
        c == hex_digit(v as int),
{
    if v < 10 {
        (v + 48) as char
    } else {
        (v + 87) as char
    }
}

/// Appends the escaped form of `s` to `out`.
fn push_escaped(out: &mut String, s: &str)
    ensures
        final(out)@ == old(out)@ + esc(s@),
{
    let n = s.unicode_len();
    let mut i: usize = 0;
    while i < n
        invariant
            n == s@.len(),
            0 <= i <= n,
            out@ == old(out)@ + esc(s@.take(i as int)),
        decreases n - i,
    {
        let c = s.get_char(i);
        let code = c as u32;
        if c == '"' || c == '\\' || code < 0x20 {
            out.push('\\');
            out.push('u');
            out.push('0');
            out.push('0');
            out.push(hex_char((code / 16) as u8));
            out.push(hex_char((code % 16) as u8));
        } else {
            out.push(c);
        }
        proof {
            lemma_esc_snoc(s@.take(i as int), s@[i as int]);
            assert(s@.take(i + 1) =~= s@.take(i as int).push(s@[i as int]));
            assert(out@ =~= old(out)@ + esc(s@.take(i + 1)));
        }
        i = i + 1;
    }
    proof {
        assert(s@.take(n as int) =~= s@);
    }
}

/// Appends the decimal digits of `n` to `out`.
fn push_u64(out: &mut String, n: u64)
    ensures
        final(out)@ == old(out)@ + dec_digits(n),
    decreases n,
{
    if n < 10 {
        out.push(hex_char(n as u8));
        proof {
            assert(out@ =~= old(out)@ + dec_digits(n));
        }
    } else {
        push_u64(out, n / 10);
        out.push(hex_char((n % 10) as u8));
        proof {
            assert(out@ =~= old(out)@ + dec_digits(n));
        }
    }
}

/// Returns the one wire text that stands for `m`.
pub fn encode_message(m: &P2PMessage) -> (r: String)
    ensures
        r@ == spec_encode(m@),
{
    let mut out = String::new();
    match m {
        P2PMessage::PeerInfo { node_id, listen_addr } => {
            out.append("{\"PeerInfo\":{\"node_id\":\"");
            push_escaped(&mut out, node_id.as_str());
            out.push('"');
            out.append(",\"listen_addr\":\"");
            push_escaped(&mut out, listen_addr.as_str());
            out.push('"');
            out.append("}}");
            proof {
                assert(out@ =~= spec_encode(m@));
            }
        },
        P2PMessage::Proposal { proposer_id, round, block } => {
            out.append("{\"Proposal\":{\"proposer_id\":\"");
            push_escaped(&mut out, proposer_id.as_str());
            out.push('"');
            out.append(",\"round\":");
            push_u64(&mut out, *round);
            out.append(",\"block\":\"");
            push_escaped(&mut out, block.as_str());
            out.push('"');
            out.append("}}");
            proof {
                assert(out@ =~= spec_encode(m@));
            }
        },
        P2PMessage::Prevote { voter_id, round, block_hash } => {
            out.append("{\"Prevote\":{\"voter_id\":\"");
            push_escaped(&mut out, voter_id.as_str());
            out.push('"');
            out.append(",\"round\":");
            push_u64(&mut out, *round);
            out.append(",\"block_hash\":\"");
            push_escaped(&mut out, block_hash.as_str());
            out.push('"');
            out.append("}}");
            proof {
                assert(out@ =~= spec_encode(m@));
            }
        },
        P2PMessage::Precommit { voter_id, round, block_hash } => {
            out.append("{\"Precommit\":{\"voter_id\":\"");
            push_escaped(&mut out, voter_id.as_str());
            out.push('"');
            out.append(",\"round\":");
            push_u64(&mut out, *round);
            out.append(",\"block_hash\":\"");
            push_escaped(&mut out, block_hash.as_str());
            out.push('"');
            out.append("}}");
            proof {
                assert(out@ =~= spec_encode(m@));
            }
        },
        P2PMessage::Commit { block_hash, round } => {
            out.append("{\"Commit\":{\"block_hash\":\"");
            push_escaped(&mut out, block_hash.as_str());
            out.push('"');
            out.append(",\"round\":");
            push_u64(&mut out, *round);
            out.append("}}");
            proof {
                assert(out@ =~= spec_encode(m@));
            }
        },
    }
    out
}

// ---------------------------------------------------------------------------
// The decoding, as a specification
// ---------------------------------------------------------------------------

/// A lowercase hexadecimal digit.
pub open spec fn is_hex_lower(c: char) -> bool {
    (48 <= c as int <= 57) || (97 <= c as int <= 102)
}

/// The value of a lowercase hexadecimal digit.
pub open spec fn hex_val(c: char) -> int {
    if 48 <= c as int <= 57 {
        c as int - 48
    } else {
        c as int - 87
    }
}

/// A decimal digit.
pub open spec fn is_digit(c: char) -> bool {
    48 <= c as int <= 57
}

/// The value of a decimal digit.
pub open spec fn digit_val(c: char) -> int {
    c as int - 48
}

/// True when `pre` stands at the start of `s`.
pub open spec fn starts_with(s: Seq<char>, pre: Seq<char>) -> bool {
    pre.len() <= s.len() && s.subrange(0, pre.len() as int) == pre
}

/// Reads one string field up to its closing quote: the result is the field's
/// characters and the text after the quote.  Exactly the escapes that
/// [`esc_char`] can produce are understood.
pub open spec fn sparse_string(s: Seq<char>) -> Option<(Seq<char>, Seq<char>)>
    decreases s.len(),
{
    if s.len() == 0 {
        None
    } else if s[0] == '"' {
        Some((Seq::empty(), s.drop_first()))
    } else if s[0] == '\\' {
        if s.len() >= 6 && s[1] == 'u' && s[2] == '0' && s[3] == '0' && is_hex_lower(s[4])
            && is_hex_lower(s[5]) {
            match sparse_string(s.skip(6)) {
                Some((v, r)) => Some(
                    (seq![(hex_val(s[4]) * 16 + hex_val(s[5])) as char] + v, r),
                ),
                None => None,
            }
        } else {
            None
        }
    } else {
        match sparse_string(s.drop_first()) {
            Some((v, r)) => Some((seq![s[0]] + v, r)),
            None => None,
        }
    }
}

/// Reads decimal digits into `acc` until a non-digit; a number beyond the
/// range of `u64` is refused.
pub open spec fn sparse_num_rec(s: Seq<char>, acc: u64) -> Option<(u64, Seq<char>)>
    decreases s.len(),
{
    if s.len() == 0 || !is_digit(s[0]) {
        Some((acc, s))
    } else if acc <= (u64::MAX - digit_val(s[0])) / 10 {
        sparse_num_rec(s.drop_first(), (10 * acc + digit_val(s[0])) as u64)
    } else {
        None
    }
}

/// Reads a round number: at least one decimal digit, fitting in `u64`.
pub open spec fn sparse_num(s: Seq<char>) -> Option<(u64, Seq<char>)> {
    if s.len() > 0 && is_digit(s[0]) {
        sparse_num_rec(s, 0)
    } else {
        None
    }
}

/// Reads the two string fields of a `PeerInfo` body, separated by `mid` and
/// closed by the object end.
pub open spec fn sparse_two_strings(s: Seq<char>, mid: Seq<char>) -> Option<(Seq<char>, Seq<char>)> {
    match sparse_string(s) {
        Some((a, r1)) => if starts_with(r1, mid) {
            match sparse_string(r1.skip(mid.len() as int)) {
                Some((b, r2)) => if r2 == obj_end() {
                    Some((a, b))
                } else {
                    None
                },
                None => None,
            }
        } else {
            None
        },
        None => None,
    }
}

/// Reads a string field, a round number and a second string field, the
/// fields separated by the round text and `mid2`, closed by the object end.
pub open spec fn sparse_str_num_str(s: Seq<char>, mid2: Seq<char>) -> Option<
    (Seq<char>, u64, Seq<char>),
> {
    match sparse_string(s) {
        Some((a, r1)) => if starts_with(r1, round_mid()) {
            match sparse_num(r1.skip(round_mid().len() as int)) {
                Some((n, r2)) => if starts_with(r2, mid2) {
                    match sparse_string(r2.skip(mid2.len() as int)) {
                        Some((b, r3)) => if r3 == obj_end() {
                            Some((a, n, b))
                        } else {
                            None
                        },
                        None => None,
                    }
                } else {
                    None
                },
                None => None,
            }
        } else {
            None
        },
        None => None,
    }
}

/// Reads a string field and a round number, closed by the object end.
pub open spec fn sparse_str_num(s: Seq<char>) -> Option<(Seq<char>, u64)> {
    match sparse_string(s) {
        Some((a, r1)) => if starts_with(r1, round_mid()) {
            match sparse_num(r1.skip(round_mid().len() as int)) {
                Some((n, r2)) => if r2 == obj_end() {
                    Some((a, n))
                } else {
                    None
                },
                None => None,
            }
        } else {
            None
        },
        None => None,
    }
}

/// The one message value a wire text can stand for, if any.  The five kinds
/// are told apart by their opening text; everything else is refused.
pub open spec fn sparse_message(s: Seq<char>) -> Option<MessageView> {
    if starts_with(s, peer_pre()) {
        match sparse_two_strings(s.skip(peer_pre().len() as int), peer_mid()) {
            Some((id, addr)) => Some(MessageView::PeerInfo { node_id: id, listen_addr: addr }),
            None => None,
        }
    } else if starts_with(s, prop_pre()) {
        match sparse_str_num_str(s.skip(prop_pre().len() as int), block_mid()) {
            Some((p, n, b)) => Some(MessageView::Proposal { proposer_id: p, round: n, block: b }),
            None => None,
        }
    } else if starts_with(s, prev_pre()) {
        match sparse_str_num_str(s.skip(prev_pre().len() as int), hash_mid()) {
            Some((v, n, h)) => Some(MessageView::Prevote { voter_id: v, round: n, block_hash: h }),
            None => None,
        }
    } else if starts_with(s, prec_pre()) {
        match sparse_str_num_str(s.skip(prec_pre().len() as int), hash_mid()) {
            Some((v, n, h)) => Some(
                MessageView::Precommit { voter_id: v, round: n, block_hash: h },
            ),
            None => None,
        }
    } else if starts_with(s, commit_pre()) {
        match sparse_str_num(s.skip(commit_pre().len() as int)) {
            Some((h, n)) => Some(MessageView::Commit { block_hash: h, round: n }),
            None => None,
        }
    } else {
        None
    }
}

// ---------------------------------------------------------------------------
// Round trip: decoding an encoding gives the message back
// ---------------------------------------------------------------------------

proof fn lemma_hex_digit_val(v: int)
    requires
        0 <= v < 16,
    ensures
        is_hex_lower(hex_digit(v)),
        hex_val(hex_digit(v)) == v,
        v < 10 ==> is_digit(hex_digit(v)) && digit_val(hex_digit(v)) == v,
{
}

proof fn lemma_escaped_code_range(c: char)
    requires
        needs_escape(c),
    ensures
        0 <= (c as int) && (c as int) < 0x5d,
{
    if c == '"' {
        assert(c as int == 34);
    } else if c == '\\' {
        assert(c as int == 92);
    }
}

proof fn lemma_sparse_string_jstr(a: Seq<char>, rest: Seq<char>)
    ensures
        sparse_string(jstr(a) + rest) == Some((a, rest)),
    decreases a.len(),
{
    let s = jstr(a) + rest;
    if a.len() == 0 {
        assert(s[0] == '"');
        assert(s.drop_first() =~= rest);
        assert(Seq::<char>::empty() =~= a);
    } else {
        let c = a[0];
        let code = c as int;
        let tail = jstr(a.drop_first()) + rest;
        assert(esc(a) == esc_char(c) + esc(a.drop_first()));
        lemma_sparse_string_jstr(a.drop_first(), rest);
        assert(seq![c] + a.drop_first() =~= a);
        if needs_escape(c) {
            lemma_escaped_code_range(c);
            assert(0 <= code && code < 0x5d);
            assert(s.len() >= 6 + tail.len());
            assert(s[0] == '\\' && s[1] == 'u' && s[2] == '0' && s[3] == '0');
            assert(s[4] == hex_digit(code / 16));
            assert(s[5] == hex_digit(code % 16));
            lemma_hex_digit_val(code / 16);
            lemma_hex_digit_val(code % 16);
            vstd::arithmetic::div_mod::lemma_fundamental_div_mod(code, 16);
            assert(hex_val(s[4]) * 16 + hex_val(s[5]) == code);
            assert((code as char) == c);
            assert(s.skip(6) =~= tail);
        } else {
            assert(s[0] == c);
            assert(c != '"' && c != '\\');
            assert(s.drop_first() =~= tail);
        }
    }
}

/// One more than the largest value writable with `k` decimal digits.
pub open spec fn pow10(k: nat) -> nat
    decreases k,
{
    if k == 0 {
        1nat
    } else {
        10 * pow10((k - 1) as nat)
    }
}

proof fn lemma_dec_digits_first(n: u64)
    ensures
        dec_digits(n).len() >= 1,
        is_digit(dec_digits(n)[0]),
    decreases n,
{
    if n < 10 {
        lemma_hex_digit_val(n as int);
    } else {
        lemma_dec_digits_first(n / 10);
        assert(dec_digits(n)[0] == dec_digits(n / 10)[0]);
    }
}

proof fn lemma_div10_bound(x: int, y: int)
    requires
        0 <= x,
        0 <= y,
        10 * x + y <= u64::MAX,
        y < 10,
    ensures
        x <= (u64::MAX - y) / 10,
{
    let m = u64::MAX - y;
    vstd::arithmetic::div_mod::lemma_fundamental_div_mod(m, 10);
    assert(10 * x <= m);
    assert(m == 10 * (m / 10) + m % 10);
    assert(x <= m / 10) by (nonlinear_arith)
        requires
            10 * x <= m,
            m == 10 * (m / 10) + m % 10,
            0 <= m % 10 < 10,
    ;
}

proof fn lemma_sparse_num_rec(n: u64, acc: u64, rest: Seq<char>)
    requires
        acc * pow10(dec_digits(n).len()) + n <= u64::MAX,
    ensures
        sparse_num_rec(dec_digits(n) + rest, acc) == sparse_num_rec(
            rest,
            (acc * pow10(dec_digits(n).len()) + n) as u64,
        ),
    decreases n,
{
    let s = dec_digits(n) + rest;
    let len = dec_digits(n).len();
    if n < 10 {
        assert(len == 1);
        assert(pow10(0) == 1);
        assert(pow10(1) == 10);
        lemma_hex_digit_val(n as int);
        assert(s[0] == hex_digit(n as int));
        assert(is_digit(s[0]) && digit_val(s[0]) == n);
        assert(acc * 10 + n <= u64::MAX);
        lemma_div10_bound(acc as int, n as int);
        assert(s.drop_first() =~= rest);
        assert(10 * acc + n == acc * pow10(1) + n);
    } else {
        let hi = n / 10;
        let lo = n % 10;
        vstd::arithmetic::div_mod::lemma_fundamental_div_mod(n as int, 10);
        let pre = dec_digits(hi);
        let plen = pre.len();
        assert(dec_digits(n) == pre + seq![hex_digit(lo as int)]);
        assert(len == plen + 1);
        assert(pow10(len) == 10 * pow10(plen));
        let step = seq![hex_digit(lo as int)] + rest;
        assert(s =~= pre + step);
        assert(acc * pow10(len) == 10 * (acc * pow10(plen))) by (nonlinear_arith)
            requires
                pow10(len) == 10 * pow10(plen),
        ;
        assert(10 * (acc * pow10(plen)) + 10 * hi <= 10 * (acc * pow10(plen)) + n);
        assert(10 * (acc * pow10(plen) + hi) <= u64::MAX);
        assert(acc * pow10(plen) + hi <= u64::MAX);
        lemma_sparse_num_rec(hi, acc, step);
        let acc2 = (acc * pow10(plen) + hi) as u64;
        assert(sparse_num_rec(s, acc) == sparse_num_rec(step, acc2));
        lemma_hex_digit_val(lo as int);
        assert(step[0] == hex_digit(lo as int));
        assert(is_digit(step[0]) && digit_val(step[0]) == lo);
        assert(10 * acc2 + lo == acc * pow10(len) + n);
        lemma_div10_bound(acc2 as int, lo as int);
        assert(step.drop_first() =~= rest);
    }
}

proof fn lemma_sparse_num_digits(n: u64, rest: Seq<char>)
    requires
        rest.len() == 0 || !is_digit(rest[0]),
    ensures
        sparse_num(dec_digits(n) + rest) == Some((n, rest)),
{
    lemma_dec_digits_first(n);
    assert((dec_digits(n) + rest)[0] == dec_digits(n)[0]);
    assert(0 * pow10(dec_digits(n).len()) + n <= u64::MAX) by (nonlinear_arith);
    lemma_sparse_num_rec(n, 0, rest);
    assert(0 * pow10(dec_digits(n).len()) + n == n) by (nonlinear_arith);
}

proof fn lemma_rt_peer_info(node_id: Seq<char>, listen_addr: Seq<char>)
    ensures
        sparse_message(spec_encode(MessageView::PeerInfo { node_id, listen_addr }))
            == Some(MessageView::PeerInfo { node_id, listen_addr }),
{
    reveal_strlit("{\"PeerInfo\":{\"node_id\":\"");
    reveal_strlit(",\"listen_addr\":\"");
    reveal_strlit("}}");
    let s = spec_encode(MessageView::PeerInfo { node_id, listen_addr });
    let rest1 = peer_mid() + jstr(listen_addr) + obj_end();
    assert(starts_with(s, peer_pre())) by {
        assert(s.subrange(0, peer_pre().len() as int) =~= peer_pre());
    }
    assert(s.skip(peer_pre().len() as int) =~= jstr(node_id) + rest1);
    lemma_sparse_string_jstr(node_id, rest1);
    assert(starts_with(rest1, peer_mid())) by {
        assert(rest1.subrange(0, peer_mid().len() as int) =~= peer_mid());
    }
    assert(rest1.skip(peer_mid().len() as int) =~= jstr(listen_addr) + obj_end());
    lemma_sparse_string_jstr(listen_addr, obj_end());
}

proof fn lemma_rt_proposal(proposer_id: Seq<char>, round: u64, block: Seq<char>)
    ensures
        sparse_message(spec_encode(MessageView::Proposal { proposer_id, round, block }))
            == Some(MessageView::Proposal { proposer_id, round, block }),
{
    reveal_strlit("{\"PeerInfo\":{\"node_id\":\"");
    reveal_strlit("{\"Proposal\":{\"proposer_id\":\"");
    reveal_strlit(",\"round\":");
    reveal_strlit(",\"block\":\"");
    reveal_strlit("}}");
    let s = spec_encode(MessageView::Proposal { proposer_id, round, block });
    let rest1 = round_mid() + dec_digits(round) + block_mid() + jstr(block) + obj_end();
    let rest2 = block_mid() + jstr(block) + obj_end();
    assert(!starts_with(s, peer_pre())) by {
        assert(s[3] == prop_pre()[3]);
        if starts_with(s, peer_pre()) {
            assert(s.subrange(0, peer_pre().len() as int)[3] == s[3]);
        }
    }
    assert(starts_with(s, prop_pre())) by {
        assert(s.subrange(0, prop_pre().len() as int) =~= prop_pre());
    }
    assert(s.skip(prop_pre().len() as int) =~= jstr(proposer_id) + rest1);
    lemma_sparse_string_jstr(proposer_id, rest1);
    assert(starts_with(rest1, round_mid())) by {
        assert(rest1.subrange(0, round_mid().len() as int) =~= round_mid());
    }
    assert(rest1.skip(round_mid().len() as int) =~= dec_digits(round) + rest2);
    assert(!is_digit(rest2[0]));
    lemma_sparse_num_digits(round, rest2);
    assert(starts_with(rest2, block_mid())) by {
        assert(rest2.subrange(0, block_mid().len() as int) =~= block_mid());
    }
    assert(rest2.skip(block_mid().len() as int) =~= jstr(block) + obj_end());
    lemma_sparse_string_jstr(block, obj_end());
}

proof fn lemma_rt_prevote(voter_id: Seq<char>, round: u64, block_hash: Seq<char>)
    ensures
        sparse_message(spec_encode(MessageView::Prevote { voter_id, round, block_hash }))
            == Some(MessageView::Prevote { voter_id, round, block_hash }),
{
    reveal_strlit("{\"PeerInfo\":{\"node_id\":\"");
    reveal_strlit("{\"Proposal\":{\"proposer_id\":\"");
    reveal_strlit("{\"Prevote\":{\"voter_id\":\"");
    reveal_strlit(",\"round\":");
    reveal_strlit(",\"block_hash\":\"");
    reveal_strlit("}}");
    let s = spec_encode(MessageView::Prevote { voter_id, round, block_hash });
    let rest1 = round_mid() + dec_digits(round) + hash_mid() + jstr(block_hash) + obj_end();
    let rest2 = hash_mid() + jstr(block_hash) + obj_end();
    assert(!starts_with(s, peer_pre())) by {
        assert(s[3] == prev_pre()[3]);
        if starts_with(s, peer_pre()) {
            assert(s.subrange(0, peer_pre().len() as int)[3] == s[3]);
        }
    }
    assert(!starts_with(s, prop_pre())) by {
        assert(s[4] == prev_pre()[4]);
        if starts_with(s, prop_pre()) {
            assert(s.subrange(0, prop_pre().len() as int)[4] == s[4]);
        }
    }
    assert(starts_with(s, prev_pre())) by {
        assert(s.subrange(0, prev_pre().len() as int) =~= prev_pre());
    }
    assert(s.skip(prev_pre().len() as int) =~= jstr(voter_id) + rest1);
    lemma_sparse_string_jstr(voter_id, rest1);
    assert(starts_with(rest1, round_mid())) by {
        assert(rest1.subrange(0, round_mid().len() as int) =~= round_mid());
    }
    assert(rest1.skip(round_mid().len() as int) =~= dec_digits(round) + rest2);
    assert(!is_digit(rest2[0]));
    lemma_sparse_num_digits(round, rest2);
    assert(starts_with(rest2, hash_mid())) by {
        assert(rest2.subrange(0, hash_mid().len() as int) =~= hash_mid());
    }
    assert(rest2.skip(hash_mid().len() as int) =~= jstr(block_hash) + obj_end());
    lemma_sparse_string_jstr(block_hash, obj_end());
}

proof fn lemma_rt_precommit(voter_id: Seq<char>, round: u64, block_hash: Seq<char>)
    ensures
        sparse_message(spec_encode(MessageView::Precommit { voter_id, round, block_hash }))
            == Some(MessageView::Precommit { voter_id, round, block_hash }),
{
    reveal_strlit("{\"PeerInfo\":{\"node_id\":\"");
    reveal_strlit("{\"Proposal\":{\"proposer_id\":\"");
    reveal_strlit("{\"Prevote\":{\"voter_id\":\"");
    reveal_strlit("{\"Precommit\":{\"voter_id\":\"");
    reveal_strlit(",\"round\":");
    reveal_strlit(",\"block_hash\":\"");
    reveal_strlit("}}");
    let s = spec_encode(MessageView::Precommit { voter_id, round, block_hash });
    let rest1 = round_mid() + dec_digits(round) + hash_mid() + jstr(block_hash) + obj_end();
    let rest2 = hash_mid() + jstr(block_hash) + obj_end();
    assert(!starts_with(s, peer_pre())) by {
        assert(s[3] == prec_pre()[3]);
        if starts_with(s, peer_pre()) {
            assert(s.subrange(0, peer_pre().len() as int)[3] == s[3]);
        }
    }
    assert(!starts_with(s, prop_pre())) by {
        assert(s[4] == prec_pre()[4]);
        if starts_with(s, prop_pre()) {
            assert(s.subrange(0, prop_pre().len() as int)[4] == s[4]);
        }
    }
    assert(!starts_with(s, prev_pre())) by {
        assert(s[5] == prec_pre()[5]);
        if starts_with(s, prev_pre()) {
            assert(s.subrange(0, prev_pre().len() as int)[5] == s[5]);
        }
    }
    assert(starts_with(s, prec_pre())) by {
        assert(s.subrange(0, prec_pre().len() as int) =~= prec_pre());
    }
    assert(s.skip(prec_pre().len() as int) =~= jstr(voter_id) + rest1);
    lemma_sparse_string_jstr(voter_id, rest1);
    assert(starts_with(rest1, round_mid())) by {
        assert(rest1.subrange(0, round_mid().len() as int) =~= round_mid());
    }
    assert(rest1.skip(round_mid().len() as int) =~= dec_digits(round) + rest2);
    assert(!is_digit(rest2[0]));
    lemma_sparse_num_digits(round, rest2);
    assert(starts_with(rest2, hash_mid())) by {
        assert(rest2.subrange(0, hash_mid().len() as int) =~= hash_mid());
    }
    assert(rest2.skip(hash_mid().len() as int) =~= jstr(block_hash) + obj_end());
    lemma_sparse_string_jstr(block_hash, obj_end());
}

proof fn lemma_rt_commit(block_hash: Seq<char>, round: u64)
    ensures
        sparse_message(spec_encode(MessageView::Commit { block_hash, round }))
            == Some(MessageView::Commit { block_hash, round }),
{
    reveal_strlit("{\"PeerInfo\":{\"node_id\":\"");
    reveal_strlit("{\"Proposal\":{\"proposer_id\":\"");
    reveal_strlit("{\"Prevote\":{\"voter_id\":\"");
    reveal_strlit("{\"Precommit\":{\"voter_id\":\"");
    reveal_strlit("{\"Commit\":{\"block_hash\":\"");
    reveal_strlit(",\"round\":");
    reveal_strlit("}}");
    let s = spec_encode(MessageView::Commit { block_hash, round });
    let rest1 = round_mid() + dec_digits(round) + obj_end();
    assert(!starts_with(s, peer_pre())) by {
        assert(s[2] == commit_pre()[2]);
        if starts_with(s, peer_pre()) {
            assert(s.subrange(0, peer_pre().len() as int)[2] == s[2]);
        }
    }
    assert(!starts_with(s, prop_pre())) by {
        if starts_with(s, prop_pre()) {
            assert(s.subrange(0, prop_pre().len() as int)[2] == s[2]);
        }
    }
    assert(!starts_with(s, prev_pre())) by {
        if starts_with(s, prev_pre()) {
            assert(s.subrange(0, prev_pre().len() as int)[2] == s[2]);
        }
    }
    assert(!starts_with(s, prec_pre())) by {
        if starts_with(s, prec_pre()) {
            assert(s.subrange(0, prec_pre().len() as int)[2] == s[2]);
        }
    }
    assert(starts_with(s, commit_pre())) by {
        assert(s.subrange(0, commit_pre().len() as int) =~= commit_pre());
    }
    assert(s.skip(commit_pre().len() as int) =~= jstr(block_hash) + rest1);
    lemma_sparse_string_jstr(block_hash, rest1);
    assert(starts_with(rest1, round_mid())) by {
        assert(rest1.subrange(0, round_mid().len() as int) =~= round_mid());
    }
    assert(rest1.skip(round_mid().len() as int) =~= dec_digits(round) + obj_end());
    assert(!is_digit(obj_end()[0]));
    lemma_sparse_num_digits(round, obj_end());
}

/// Every message decodes from its own wire text: the parse of
/// [`spec_encode`]`(v)` is exactly `v`.  This is the round-trip law of the
/// codec: with [`encode_message`] writing `spec_encode(m@)` and
/// [`decode_message`] returning the parse, encoding then decoding any of
/// the five message kinds reproduces every field exactly.
pub proof fn lemma_round_trip(v: MessageView)
    ensures
        sparse_message(spec_encode(v)) == Some(v),
{
    match v {
        MessageView::PeerInfo { node_id, listen_addr } => {
            lemma_rt_peer_info(node_id, listen_addr);
        },
        MessageView::Proposal { proposer_id, round, block } => {
            lemma_rt_proposal(proposer_id, round, block);
        },
        MessageView::Prevote { voter_id, round, block_hash } => {
            lemma_rt_prevote(voter_id, round, block_hash);
        },
        MessageView::Precommit { voter_id, round, block_hash } => {
            lemma_rt_precommit(voter_id, round, block_hash);
        },
        MessageView::Commit { block_hash, round } => {
            lemma_rt_commit(block_hash, round);
        },
    }
}

/// No two distinct messages share a wire text.
pub proof fn lemma_encode_injective(v1: MessageView, v2: MessageView)
    requires
        spec_encode(v1) == spec_encode(v2),
    ensures
        v1 == v2,
{
    lemma_round_trip(v1);
    lemma_round_trip(v2);
}

// ---------------------------------------------------------------------------
// The decoder
// ---------------------------------------------------------------------------

proof fn lemma_char_u32_int(c: char)
    ensures
        c as u32 as int == c as int,
{
}

/// Whether `c` is a lowercase hexadecimal digit.
fn is_hex_exec(c: char) -> (r: bool)
    ensures
        r == is_hex_lower(c),
{
    let u = c as u32;
    (48 <= u && u <= 57) || (97 <= u && u <= 102)
}

/// The value of a lowercase hexadecimal digit.
fn hex_val_exec(c: char) -> (r: u8)
    requires
        is_hex_lower(c),
    ensures
        r as int == hex_val(c),
{
    let u = c as u32;
    if u <= 57 {
        (u - 48) as u8
    } else {
        (u - 87) as u8
    }
}

/// The characters of `s`, one by one.
fn str_to_chars(s: &str) -> (r: Vec<char>)
    ensures
        r@ == s@,
{
    let n = s.unicode_len();
    let mut out: Vec<char> = Vec::new();
    let mut i: usize = 0;
    while i < n
        invariant
            n == s@.len(),
            0 <= i <= n,
            out@ == s@.take(i as int),
        decreases n - i,
    {
        out.push(s.get_char(i));
        proof {
            assert(out@ =~= s@.take(i + 1));
        }
        i = i + 1;
    }
    proof {
        assert(s@.take(n as int) =~= s@);
    }
    out
}

/// A string holding exactly the characters of `v`.
fn chars_to_string(v: &Vec<char>) -> (r: String)
    ensures
        r@ == v@,
{
    let n = v.len();
    let mut out = String::new();
    let mut i: usize = 0;
    while i < n
        invariant
            n == v@.len(),
            0 <= i <= n,
            out@ == v@.take(i as int),
        decreases n - i,
    {
        out.push(v[i]);
        proof {
            assert(out@ =~= v@.take(i + 1));
        }
        i = i + 1;
    }
    proof {
        assert(v@.take(n as int) =~= v@);
    }
    out
}

/// Checks that `lit` stands at position `i` of `s` and steps over it.
fn match_lit(s: &Vec<char>, i: usize, lit: &str) -> (r: Option<usize>)
    requires
        i <= s@.len(),
    ensures
        match r {
            Some(j) => j == i + lit@.len() && j <= s@.len() && starts_with(
                s@.skip(i as int),
                lit@,
            ),
            None => !starts_with(s@.skip(i as int), lit@),
        },
{
    let m = lit.unicode_len();
    if s.len() - i < m {
        return None;
    }
    let mut k: usize = 0;
    while k < m
        invariant
            i <= s@.len(),
            s@.len() <= usize::MAX,
            m == lit@.len(),
            m <= s@.len() - i,
            0 <= k <= m,
            forall|t: int| 0 <= t < k ==> s@[i + t] == lit@[t],
        decreases m - k,
    {
        if s[i + k] != lit.get_char(k) {
            proof {
                if starts_with(s@.skip(i as int), lit@) {
                    assert(s@.skip(i as int).subrange(0, m as int)[k as int] == lit@[k as int]);
                }
            }
            return None;
        }
        k = k + 1;
    }
    proof {
        assert(s@.skip(i as int).subrange(0, m as int) =~= lit@);
    }
    Some(i + m)
}

/// Reads one string field starting at position `i`, as
/// [`sparse_string`] reads the text from there.
fn parse_string_at(s: &Vec<char>, i: usize) -> (r: Option<(Vec<char>, usize)>)
    requires
        i <= s@.len(),
    ensures
        match r {
            Some((v, j)) => i <= j <= s@.len() && sparse_string(s@.skip(i as int)) == Some(
                (v@, s@.skip(j as int)),
            ),
            None => sparse_string(s@.skip(i as int)) is None,
        },
    decreases s@.len() - i,
{
    if i == s.len() {
        return None;
    }
    let c = s[i];
    if c == '"' {
        let empty: Vec<char> = Vec::new();
        proof {
            assert(s@.skip(i as int).drop_first() =~= s@.skip(i + 1));
            assert(empty@ =~= Seq::<char>::empty());
        }
        return Some((empty, i + 1));
    }
    if c == '\\' {
        let rem = s.len() - i;
        if rem >= 6 && s[i + 1] == 'u' && s[i + 2] == '0' && s[i + 3] == '0' && is_hex_exec(
            s[i + 4],
        ) && is_hex_exec(s[i + 5]) {
            let code: u8 = hex_val_exec(s[i + 4]) * 16 + hex_val_exec(s[i + 5]);
            let ch = code as char;
            match parse_string_at(s, i + 6) {
                Some((inner, j)) => {
                    let mut v = inner;
                    v.insert(0, ch);
                    proof {
                        let t = s@.skip(i as int);
                        assert(t[1] == s@[i + 1] && t[2] == s@[i + 2] && t[3] == s@[i + 3]
                            && t[4] == s@[i + 4] && t[5] == s@[i + 5]);
                        assert(t.skip(6) =~= s@.skip(i + 6));
                        assert(ch as int == hex_val(t[4]) * 16 + hex_val(t[5]));
                        assert(v@ =~= seq![(hex_val(t[4]) * 16 + hex_val(t[5])) as char]
                            + inner@);
                    }
                    Some((v, j))
                },
                None => {
                    proof {
                        let t = s@.skip(i as int);
                        assert(t[1] == s@[i + 1] && t[2] == s@[i + 2] && t[3] == s@[i + 3]
                            && t[4] == s@[i + 4] && t[5] == s@[i + 5]);
                        assert(t.skip(6) =~= s@.skip(i + 6));
                    }
                    None
                },
            }
        } else {
            proof {
                let t = s@.skip(i as int);
                if t.len() >= 6 {
                    assert(t[1] == s@[i + 1] && t[2] == s@[i + 2] && t[3] == s@[i + 3] && t[4]
                        == s@[i + 4] && t[5] == s@[i + 5]);
                }
            }
            None
        }
    } else {
        match parse_string_at(s, i + 1) {
            Some((inner, j)) => {
                let mut v = inner;
                v.insert(0, c);
                proof {
                    assert(s@.skip(i as int).drop_first() =~= s@.skip(i + 1));
                    assert(v@ =~= seq![s@[i as int]] + inner@);
                }
                Some((v, j))
            },
            None => {
                proof {
                    assert(s@.skip(i as int).drop_first() =~= s@.skip(i + 1));
                }
                None
            },
        }
    }
}

/// Reads a round number starting at position `i`, as [`sparse_num`] reads
/// the text from there.
fn parse_num_at(s: &Vec<char>, i: usize) -> (r: Option<(u64, usize)>)
    requires
        i <= s@.len(),
    ensures
        match r {
            Some((n, j)) => i <= j <= s@.len() && sparse_num(s@.skip(i as int)) == Some(
                (n, s@.skip(j as int)),
            ),
            None => sparse_num(s@.skip(i as int)) is None,
        },
{
    if i == s.len() {
        return None;
    }
    let c0 = s[i];
    let first = c0 as u32;
    proof {
        lemma_char_u32_int(c0);
        assert(s@.skip(i as int)[0] == s@[i as int]);
    }
    if !(48 <= first && first <= 57) {
        return None;
    }
    proof {
        assert(is_digit(s@[i as int]));
    }
    let mut acc: u64 = 0;
    let mut j: usize = i;
    loop
        invariant
            i <= j <= s@.len(),
            s@.len() <= usize::MAX,
            sparse_num_rec(s@.skip(i as int), 0) == sparse_num_rec(s@.skip(j as int), acc),
            s@.skip(i as int).len() > 0 && is_digit(s@.skip(i as int)[0]),
        decreases s@.len() - j,
    {
        if j == s.len() {
            return Some((acc, j));
        }
        let c = s[j];
        let u = c as u32;
        proof {
            lemma_char_u32_int(c);
            assert(s@.skip(j as int)[0] == s@[j as int]);
        }
        if !(48 <= u && u <= 57) {
            proof {
                assert(!is_digit(s@[j as int]));
            }
            return Some((acc, j));
        }
        let d = (u - 48) as u64;
        proof {
            assert(is_digit(s@[j as int]) && digit_val(s@[j as int]) == d);
        }
        if acc <= (u64::MAX - d) / 10 {
            proof {
                let m = (u64::MAX - d) as int;
                vstd::arithmetic::div_mod::lemma_fundamental_div_mod(m, 10);
                assert(10 * (acc as int) <= 10 * (m / 10));
                assert(10 * (m / 10) == m - m % 10);
                assert(10 * (acc as int) + d <= u64::MAX);
                assert(s@.skip(j as int).drop_first() =~= s@.skip(j + 1));
            }
            acc = 10 * acc + d;
            j = j + 1;
        } else {
            return None;
        }
    }
}

/// Reads the two string fields of a `PeerInfo` body, separated by `mid`.
fn parse_two_strings_at(s: &Vec<char>, i: usize, mid: &str) -> (r: Option<(String, String)>)
    requires
        i <= s@.len(),
    ensures
        match r {
            Some((a, b)) => sparse_two_strings(s@.skip(i as int), mid@) == Some((a@, b@)),
            None => sparse_two_strings(s@.skip(i as int), mid@) is None,
        },
{
    let (a, j2) = match parse_string_at(s, i) {
        Some(p) => p,
        None => {
            return None;
        },
    };
    let j3 = match match_lit(s, j2, mid) {
        Some(j) => j,
        None => {
            return None;
        },
    };
    proof {
        assert(s@.skip(j2 as int).skip(mid@.len() as int) =~= s@.skip(j3 as int));
    }
    let (b, j4) = match parse_string_at(s, j3) {
        Some(p) => p,
        None => {
            return None;
        },
    };
    let j5 = match match_lit(s, j4, "}}") {
        Some(j) => j,
        None => {
            proof {
                reveal_strlit("}}");
                if s@.skip(j4 as int) == obj_end() {
                    assert(s@.skip(j4 as int).subrange(0, 2) =~= obj_end());
                }
            }
            return None;
        },
    };
    if j5 != s.len() {
        proof {
            assert(s@.skip(j4 as int).len() > obj_end().len());
        }
        return None;
    }
    proof {
        assert(s@.skip(j4 as int) =~= obj_end());
    }
    Some((chars_to_string(&a), chars_to_string(&b)))
}

/// Reads a string field, a round number and a second string field, the last
/// introduced by `mid2`.
fn parse_str_num_str_at(s: &Vec<char>, i: usize, mid2: &str) -> (r: Option<(String, u64, String)>)
    requires
        i <= s@.len(),
    ensures
        match r {
            Some((a, n, b)) => sparse_str_num_str(s@.skip(i as int), mid2@) == Some(
                (a@, n, b@),
            ),
            None => sparse_str_num_str(s@.skip(i as int), mid2@) is None,
        },
{
    let (a, j2) = match parse_string_at(s, i) {
        Some(p) => p,
        None => {
            return None;
        },
    };
    let j3 = match match_lit(s, j2, ",\"round\":") {
        Some(j) => j,
        None => {
            return None;
        },
    };
    proof {
        assert(s@.skip(j2 as int).skip(round_mid().len() as int) =~= s@.skip(j3 as int));
    }
    let (n, j4) = match parse_num_at(s, j3) {
        Some(p) => p,
        None => {
            return None;
        },
    };
    let j5 = match match_lit(s, j4, mid2) {
        Some(j) => j,
        None => {
            return None;
        },
    };
    proof {
        assert(s@.skip(j4 as int).skip(mid2@.len() as int) =~= s@.skip(j5 as int));
    }
    let (b, j6) = match parse_string_at(s, j5) {
        Some(p) => p,
        None => {
            return None;
        },
    };
    let j7 = match match_lit(s, j6, "}}") {
        Some(j) => j,
        None => {
            proof {
                reveal_strlit("}}");
                if s@.skip(j6 as int) == obj_end() {
                    assert(s@.skip(j6 as int).subrange(0, 2) =~= obj_end());
                }
            }
            return None;
        },
    };
    if j7 != s.len() {
        proof {
            assert(s@.skip(j6 as int).len() > obj_end().len());
        }
        return None;
    }
    proof {
        assert(s@.skip(j6 as int) =~= obj_end());
    }
    Some((chars_to_string(&a), n, chars_to_string(&b)))
}

/// Reads a string field and a round number, as in a `Commit` body.
fn parse_str_num_at(s: &Vec<char>, i: usize) -> (r: Option<(String, u64)>)
    requires
        i <= s@.len(),
    ensures
        match r {
            Some((a, n)) => sparse_str_num(s@.skip(i as int)) == Some((a@, n)),
            None => sparse_str_num(s@.skip(i as int)) is None,
        },
{
    let (a, j2) = match parse_string_at(s, i) {
        Some(p) => p,
        None => {
            return None;
        },
    };
    let j3 = match match_lit(s, j2, ",\"round\":") {
        Some(j) => j,
        None => {
            return None;
        },
    };
    proof {
        assert(s@.skip(j2 as int).skip(round_mid().len() as int) =~= s@.skip(j3 as int));
    }
    let (n, j4) = match parse_num_at(s, j3) {
        Some(p) => p,
        None => {
            return None;
        },
    };
    let j5 = match match_lit(s, j4, "}}") {
        Some(j) => j,
        None => {
            proof {
                reveal_strlit("}}");
                if s@.skip(j4 as int) == obj_end() {
                    assert(s@.skip(j4 as int).subrange(0, 2) =~= obj_end());
                }
            }
            return None;
        },
    };
    if j5 != s.len() {
        proof {
            assert(s@.skip(j4 as int).len() > obj_end().len());
        }
        return None;
    }
    proof {
        assert(s@.skip(j4 as int) =~= obj_end());
    }
    Some((chars_to_string(&a), n))
}

/// Parses a whole wire text, as [`sparse_message`] reads it.
fn parse_message_chars(s: &Vec<char>) -> (r: Option<P2PMessage>)
    ensures
        match r {
            Some(m) => sparse_message(s@) == Some(m@),
            None => sparse_message(s@) is None,
        },
{
    proof {
        assert(s@.skip(0) =~= s@);
    }
    if let Some(j) = match_lit(s, 0, "{\"PeerInfo\":{\"node_id\":\"") {
        proof {
            assert(s@.skip(0).skip(peer_pre().len() as int) =~= s@.skip(j as int));
        }
        match parse_two_strings_at(s, j, ",\"listen_addr\":\"") {
            Some((id, addr)) => {
                return Some(P2PMessage::PeerInfo { node_id: id, listen_addr: addr });
            },
            None => {
                return None;
            },
        }
    }
    if let Some(j) = match_lit(s, 0, "{\"Proposal\":{\"proposer_id\":\"") {
        proof {
            assert(s@.skip(0).skip(prop_pre().len() as int) =~= s@.skip(j as int));
        }
        match parse_str_num_str_at(s, j, ",\"block\":\"") {
            Some((p, n, b)) => {
                return Some(P2PMessage::Proposal { proposer_id: p, round: n, block: b });
            },
            None => {
                return None;
            },
        }
    }
    if let Some(j) = match_lit(s, 0, "{\"Prevote\":{\"voter_id\":\"") {
        proof {
            assert(s@.skip(0).skip(prev_pre().len() as int) =~= s@.skip(j as int));
        }
        match parse_str_num_str_at(s, j, ",\"block_hash\":\"") {
            Some((v, n, h)) => {
                return Some(P2PMessage::Prevote { voter_id: v, round: n, block_hash: h });
            },
            None => {
                return None;
            },
        }
    }
    if let Some(j) = match_lit(s, 0, "{\"Precommit\":{\"voter_id\":\"") {
        proof {
            assert(s@.skip(0).skip(prec_pre().len() as int) =~= s@.skip(j as int));
        }
        match parse_str_num_str_at(s, j, ",\"block_hash\":\"") {
            Some((v, n, h)) => {
                return Some(P2PMessage::Precommit { voter_id: v, round: n, block_hash: h });
            },
            None => {
                return None;
            },
        }
    }
    if let Some(j) = match_lit(s, 0, "{\"Commit\":{\"block_hash\":\"") {
        proof {
            assert(s@.skip(0).skip(commit_pre().len() as int) =~= s@.skip(j as int));
        }
        match parse_str_num_at(s, j) {
            Some((h, n)) => {
                return Some(P2PMessage::Commit { block_hash: h, round: n });
            },
            None => {
                return None;
            },
        }
    }
    None
}

/// Reads a message back from a wire text.  Exactly the texts that
/// [`spec_encode`] can produce are accepted: on `spec_encode(v)` the result
/// is the message with value `v`, and on every other text it is `None`.
pub fn decode_message(s: &str) -> (r: Option<P2PMessage>)
    ensures
        match r {
            Some(m) => s@ == spec_encode(m@),
            None => forall|v: MessageView| s@ != spec_encode(v),
        },
{
    let cs = str_to_chars(s);
    match parse_message_chars(&cs) {
        None => {
            proof {
                assert forall|v: MessageView| s@ != spec_encode(v) by {
                    if s@ == spec_encode(v) {
                        lemma_round_trip(v);
                    }
                }
            }
            None
        },
        Some(m) => {
            let enc = encode_message(&m);
            let orig = String::from_str(s);
            if orig == enc {
                Some(m)
            } else {
                proof {
                    assert forall|v: MessageView| s@ != spec_encode(v) by {
                        if s@ == spec_encode(v) {
                            lemma_round_trip(v);
                        }
                    }
                }
                None
            }
        },
    }
}

} // verus!
