use vstd::prelude::*;

verus! {

// ASCII bytes the snapshot grammar is built from.
pub const B_LBRACKET: u8 = 91;  // [
pub const B_RBRACKET: u8 = 93;  // ]
pub const B_LBRACE: u8 = 123;  // {
pub const B_RBRACE: u8 = 125;  // }
pub const B_COMMA: u8 = 44;  // ,
pub const B_QUOTE: u8 = 34;  // "
pub const B_COLON: u8 = 58;  // :
pub const B_ZERO: u8 = 48;  // 0
pub const B_NINE: u8 = 57;  // 9

/// An ASCII decimal digit.
pub open spec fn is_digit(b: u8) -> bool {
    B_ZERO <= b && b <= B_NINE
}

/// The number a digit string denotes, most significant digit first.
pub open spec fn val_of(s: Seq<u8>) -> nat
    decreases s.len(),
{
    if s.len() == 0 {
        0
    } else {
        val_of(s.drop_last()) * 10 + (s.last() - B_ZERO) as nat
    }
}

/// The canonical decimal digits of `n`, without leading zeros.
pub open spec fn dec_of(n: nat) -> Seq<u8>
    decreases n,
{
    if n < 10 {
        seq![(B_ZERO + n) as u8]
    } else {
        dec_of(n / 10).push((B_ZERO + n % 10) as u8)
    }
}

/// The canonical digits denote the number they were made from.
pub(crate) proof fn lemma_dec_of_val(n: nat)
    ensures
        dec_of(n).len() >= 1,
        val_of(dec_of(n)) == n,
        forall|k: int| 0 <= k < dec_of(n).len() ==> is_digit(#[trigger] dec_of(n)[k]),
    decreases n,
{
    if n < 10 {
        assert(dec_of(n) == seq![(B_ZERO + n) as u8]);
        assert(dec_of(n).drop_last() =~= Seq::<u8>::empty());
        assert(val_of(dec_of(n)) == val_of(dec_of(n).drop_last()) * 10 + (dec_of(n).last()
            - B_ZERO) as nat);
        assert(val_of(dec_of(n)) == n);
    } else {
        lemma_dec_of_val(n / 10);
        assert(dec_of(n).drop_last() =~= dec_of(n / 10));
        assert(dec_of(n).last() == (B_ZERO + n % 10) as u8);
        assert(val_of(dec_of(n)) == val_of(dec_of(n / 10)) * 10 + n % 10);
        assert(n / 10 * 10 + n % 10 == n) by {
            vstd::arithmetic::div_mod::lemma_fundamental_div_mod(n as int, 10);
        }
    }
}

/// Append the canonical decimal digits of `n`.
pub(crate) fn push_dec(out: &mut Vec<u8>, n: u64)
    ensures
        final(out)@ == old(out)@ + dec_of(n as nat),
    decreases n,
{
    if n < 10 {
        out.push(B_ZERO + (n as u8));
        proof {
            assert(out@ =~= old(out)@ + dec_of(n as nat));
        }
    } else {
        push_dec(out, n / 10);
        out.push(B_ZERO + ((n % 10) as u8));
        proof {
            assert(out@ =~= old(out)@ + dec_of(n as nat));
        }
    }
}

/// The first index at or after `i` that does not hold a digit.
pub open spec fn num_end(s: Seq<u8>, i: int) -> int
    decreases s.len() - i,
{
    if i < 0 || i >= s.len() || !is_digit(s[i]) {
        i
    } else {
        num_end(s, i + 1)
    }
}

/// Everything between `i` and `num_end` is a digit, and `num_end` is past the
/// last digit.
pub(crate) proof fn lemma_num_end(s: Seq<u8>, i: int)
    requires
        0 <= i <= s.len(),
    ensures
        i <= num_end(s, i) <= s.len(),
        forall|k: int| i <= k < num_end(s, i) ==> is_digit(#[trigger] s[k]),
        num_end(s, i) < s.len() ==> !is_digit(s[num_end(s, i)]),
    decreases s.len() - i,
{
    if i < s.len() && is_digit(s[i]) {
        lemma_num_end(s, i + 1);
    }
}

/// A digit run denotes at least what any of its prefixes denotes.
pub(crate) proof fn lemma_val_of_take(s: Seq<u8>, m: int)
    requires
        0 <= m <= s.len(),
    ensures
        val_of(s) >= val_of(s.take(m)),
    decreases s.len() - m,
{
    if m < s.len() {
        assert(s.take(m + 1).drop_last() =~= s.take(m));
        assert(val_of(s.take(m + 1)) == val_of(s.take(m)) * 10 + (s.take(m + 1).last()
            - B_ZERO) as nat);
        lemma_val_of_take(s, m + 1);
    } else {
        assert(s.take(m) =~= s);
    }
}

/// What parsing a decimal number at `i` yields: the denoted value and the
/// index past the digits, `None` when no digit is present or the value does
/// not fit in a `u64`.
pub open spec fn spec_parse_num(s: Seq<u8>, i: int) -> Option<(u64, int)> {
    let e = num_end(s, i);
    if e == i {
        None
    } else if val_of(s.subrange(i, e)) > u64::MAX {
        None
    } else {
        Some((val_of(s.subrange(i, e)) as u64, e))
    }
}

/// Parse a decimal number starting at `i`.
#[verifier::loop_isolation(false)]
pub(crate) fn parse_num(s: &[u8], i: usize) -> (r: Option<(u64, usize)>)
    requires
        i <= s@.len(),
    ensures
        match r {
            Some((v, e)) => spec_parse_num(s@, i as int) == Some((v, e as int)) && i < e <= s@.len(),
            None => spec_parse_num(s@, i as int) is None,
        },
{
    proof {
        lemma_num_end(s@, i as int);
    }
    let mut e = i;
    while e < s.len() && B_ZERO <= s[e] && s[e] <= B_NINE
        invariant
            i <= e <= s@.len(),
            e <= num_end(s@, i as int),
            forall|k: int| i <= k < e as int ==> is_digit(#[trigger] s@[k]),
        decreases s@.len() - e,
    {
        proof {
            assert(num_end(s@, e as int) == num_end(s@, e as int + 1)) by {
                assert(is_digit(s@[e as int]));
            }
            assert(num_end(s@, i as int) >= e + 1) by {
                lemma_num_end_lower(s@, i as int, e as int + 1);
            }
        }
        e = e + 1;
    }
    proof {
        assert(e as int == num_end(s@, i as int)) by {
            if (e as int) < num_end(s@, i as int) {
                assert(is_digit(s@[e as int]));
            }
        }
    }
    if e == i {
        return None;
    }
    let ghost token = s@.subrange(i as int, e as int);
    let mut acc: u64 = 0;
    let mut k = i;
    while k < e
        invariant
            i <= k <= e,
            acc as nat == val_of(s@.subrange(i as int, k as int)),
        decreases e - k,
    {
        let d = s[k] - B_ZERO;
        proof {
            assert(s@.subrange(i as int, k as int + 1).drop_last() =~= s@.subrange(
                i as int,
                k as int,
            ));
        }
        let next = match acc.checked_mul(10) {
            Some(m) => m.checked_add(d as u64),
            None => None,
        };
        match next {
            Some(v) => {
                acc = v;
            },
            None => {
                proof {
                    assert(val_of(s@.subrange(i as int, k as int + 1)) > u64::MAX);
                    assert(token.take(k as int + 1 - i) =~= s@.subrange(i as int, k as int + 1));
                    lemma_val_of_take(token, k as int + 1 - i);
                }
                return None;
            },
        }
        k = k + 1;
    }
    Some((acc, e))
}

// The fixed framing of one snapshot record, as byte sequences.  A record is
//     {"x":N,"y":N,"xv":N,"yv":N,"stationary":B,"mass":N}
// where each N is a decimal number and B is `true` or `false`.
/// The opening frame `{"x":`.
pub open spec fn lit_x() -> Seq<u8> {
    seq![B_LBRACE, B_QUOTE, 120u8, B_QUOTE, B_COLON]
}

/// The frame `,"y":`.
pub open spec fn lit_y() -> Seq<u8> {
    seq![B_COMMA, B_QUOTE, 121u8, B_QUOTE, B_COLON]
}

/// The frame `,"xv":`.
pub open spec fn lit_xv() -> Seq<u8> {
    seq![B_COMMA, B_QUOTE, 120u8, 118u8, B_QUOTE, B_COLON]
}

/// The frame `,"yv":`.
pub open spec fn lit_yv() -> Seq<u8> {
    seq![B_COMMA, B_QUOTE, 121u8, 118u8, B_QUOTE, B_COLON]
}

/// The frame `,"stationary":`.
pub open spec fn lit_st() -> Seq<u8> {
    seq![B_COMMA, B_QUOTE, 115u8, 116u8, 97u8, 116u8, 105u8, 111u8, 110u8, 97u8, 114u8, 121u8, B_QUOTE, B_COLON]
}

/// The frame `,"mass":`.
pub open spec fn lit_mass() -> Seq<u8> {
    seq![B_COMMA, B_QUOTE, 109u8, 97u8, 115u8, 115u8, B_QUOTE, B_COLON]
}

/// The keyword `true`.
pub open spec fn lit_true() -> Seq<u8> {
    seq![116u8, 114u8, 117u8, 101u8]
}

/// The keyword `false`.
pub open spec fn lit_false() -> Seq<u8> {
    seq![102u8, 97u8, 108u8, 115u8, 101u8]
}

/// `num_end` from any index inside a digit run reaches at least past it.
proof fn lemma_num_end_lower(s: Seq<u8>, i: int, m: int)
    requires
        0 <= i <= m <= s.len(),
        forall|k: int| i <= k < m ==> is_digit(#[trigger] s[k]),
    ensures
        num_end(s, i) >= m,
    decreases m - i,
{
    if i < m {
        assert(is_digit(s[i]));
        lemma_num_end_lower(s, i + 1, m);
        assert(num_end(s, i) == num_end(s, i + 1));
    } else {
        lemma_num_end(s, i);
    }
}

/// The framing literals of a record, as runtime values, in order:
/// the six field frames, then `true` and `false`.
pub(crate) fn frame_bytes() -> (r: (Vec<u8>, Vec<u8>, Vec<u8>, Vec<u8>, Vec<u8>, Vec<u8>, Vec<u8>, Vec<u8>))
    ensures
        r.0@ == lit_x(),
        r.1@ == lit_y(),
        r.2@ == lit_xv(),
        r.3@ == lit_yv(),
        r.4@ == lit_st(),
        r.5@ == lit_mass(),
        r.6@ == lit_true(),
        r.7@ == lit_false(),
{
    let lx = vec![B_LBRACE, B_QUOTE, 120u8, B_QUOTE, B_COLON];
    let ly = vec![B_COMMA, B_QUOTE, 121u8, B_QUOTE, B_COLON];
    let lxv = vec![B_COMMA, B_QUOTE, 120u8, 118u8, B_QUOTE, B_COLON];
    let lyv = vec![B_COMMA, B_QUOTE, 121u8, 118u8, B_QUOTE, B_COLON];
    let lst = vec![
        B_COMMA,
        B_QUOTE,
        115u8,
        116u8,
        97u8,
        116u8,
        105u8,
        111u8,
        110u8,
        97u8,
        114u8,
        121u8,
        B_QUOTE,
        B_COLON,
    ];
    let lm = vec![B_COMMA, B_QUOTE, 109u8, 97u8, 115u8, 115u8, B_QUOTE, B_COLON];
    let lt = vec![116u8, 114u8, 117u8, 101u8];
    let lf = vec![102u8, 97u8, 108u8, 115u8, 101u8];
    proof {
        assert(lx@ =~= lit_x());
        assert(ly@ =~= lit_y());
        assert(lxv@ =~= lit_xv());
        assert(lyv@ =~= lit_yv());
        assert(lst@ =~= lit_st());
        assert(lm@ =~= lit_mass());
        assert(lt@ =~= lit_true());
        assert(lf@ =~= lit_false());
    }
    (lx, ly, lxv, lyv, lst, lm, lt, lf)
}

/// Append the given bytes.
#[verifier::loop_isolation(false)]
pub(crate) fn push_bytes(out: &mut Vec<u8>, lit: &Vec<u8>)
    ensures
        final(out)@ == old(out)@ + lit@,
{
    let mut k: usize = 0;
    while k < lit.len()
        invariant
            k <= lit@.len(),
            out@ == old(out)@ + lit@.take(k as int),
        decreases lit@.len() - k,
    {
        out.push(lit[k]);
        proof {
            assert(out@ =~= old(out)@ + lit@.take(k as int + 1));
        }
        k = k + 1;
    }
    proof {
        assert(out@ =~= old(out)@ + lit@);
    }
}

/// The bytes at `i` start with `lit`.
pub open spec fn spec_expect(s: Seq<u8>, i: int, lit: Seq<u8>) -> bool {
    &&& 0 <= i
    &&& i + lit.len() <= s.len()
    &&& s.subrange(i, i + lit.len()) == lit
}

/// Whether the bytes at `i` start with `lit`.
#[verifier::loop_isolation(false)]
pub(crate) fn expect_bytes(s: &[u8], i: usize, lit: &Vec<u8>) -> (r: bool)
    requires
        i <= s@.len(),
    ensures
        r == spec_expect(s@, i as int, lit@),
{
    if s.len() - i < lit.len() {
        return false;
    }
    let mut k: usize = 0;
    while k < lit.len()
        invariant
            k <= lit@.len(),
            i + lit@.len() <= s@.len(),
            forall|m: int| 0 <= m < k as int ==> s@[i + m] == lit@[m],
        decreases lit@.len() - k,
    {
        if s[i + k] != lit[k] {
            proof {
                assert(s@.subrange(i as int, i as int + lit@.len())[k as int] != lit@[k as int]);
            }
            return false;
        }
        k = k + 1;
    }
    proof {
        assert(s@.subrange(i as int, i as int + lit@.len()) =~= lit@);
    }
    true
}

/// The encoding of a boolean field.
pub open spec fn bool_bytes(b: bool) -> Seq<u8> {
    if b {
        lit_true()
    } else {
        lit_false()
    }
}

/// The encoding of one snapshot record.
pub open spec fn rec_bytes(r: crate::particle::PersistedParticle) -> Seq<u8> {
    lit_x() + dec_of(r.x as nat) + lit_y() + dec_of(r.y as nat) + lit_xv() + dec_of(r.xv as nat)
        + lit_yv() + dec_of(r.yv as nat) + lit_st() + bool_bytes(r.stationary) + lit_mass()
        + dec_of(r.mass as nat) + seq![B_RBRACE]
}

/// The encoding of a record sequence, records separated by commas.
pub open spec fn enc_records(rs: Seq<crate::particle::PersistedParticle>) -> Seq<u8>
    decreases rs.len(),
{
    if rs.len() == 0 {
        Seq::<u8>::empty()
    } else {
        rec_bytes(rs[0]) + enc_tail(rs.drop_first())
    }
}

/// The encoding of every record after the first, each preceded by a comma.
pub open spec fn enc_tail(rs: Seq<crate::particle::PersistedParticle>) -> Seq<u8>
    decreases rs.len(),
{
    if rs.len() == 0 {
        Seq::<u8>::empty()
    } else {
        seq![B_COMMA] + rec_bytes(rs[0]) + enc_tail(rs.drop_first())
    }
}

/// The encoding of a whole snapshot: the record sequence in brackets.
pub open spec fn encode_spec(rs: Seq<crate::particle::PersistedParticle>) -> Seq<u8> {
    seq![B_LBRACKET] + enc_records(rs) + seq![B_RBRACKET]
}

/// The persisted fields of every particle in the list, in order.
pub open spec fn persist_seq(s: Seq<crate::particle::Particle>) -> Seq<
    crate::particle::PersistedParticle,
> {
    Seq::new(s.len(), |i: int| s[i].persisted())
}

proof fn lemma_enc_tail_push(
    rs: Seq<crate::particle::PersistedParticle>,
    p: crate::particle::PersistedParticle,
)
    ensures
        enc_tail(rs.push(p)) == enc_tail(rs) + seq![B_COMMA] + rec_bytes(p),
    decreases rs.len(),
{
    assert(rs.push(p).len() == rs.len() + 1);
    if rs.len() == 0 {
        assert(rs.push(p)[0] == p);
        assert(rs.push(p).drop_first() =~= Seq::<crate::particle::PersistedParticle>::empty());
        assert(enc_tail(rs.push(p)) == seq![B_COMMA] + rec_bytes(p) + enc_tail(
            rs.push(p).drop_first(),
        ));
        assert(enc_tail(rs.push(p)) =~= enc_tail(rs) + seq![B_COMMA] + rec_bytes(p));
    } else {
        assert(rs.push(p)[0] == rs[0]);
        assert(rs.push(p).drop_first() =~= rs.drop_first().push(p));
        lemma_enc_tail_push(rs.drop_first(), p);
        assert(enc_tail(rs.push(p)) =~= enc_tail(rs) + seq![B_COMMA] + rec_bytes(p));
    }
}

/// Appending a record extends the encoding, with a comma separator unless it
/// is the first record.
pub(crate) proof fn lemma_enc_records_push(
    rs: Seq<crate::particle::PersistedParticle>,
    p: crate::particle::PersistedParticle,
)
    ensures
        rs.len() == 0 ==> enc_records(rs.push(p)) == rec_bytes(p),
        rs.len() > 0 ==> enc_records(rs.push(p)) == enc_records(rs) + seq![B_COMMA] + rec_bytes(p),
{
    if rs.len() == 0 {
        assert(rs.push(p).drop_first() =~= Seq::<crate::particle::PersistedParticle>::empty());
        assert(enc_records(rs.push(p)) =~= rec_bytes(p));
    } else {
        assert(rs.push(p).drop_first() =~= rs.drop_first().push(p));
        lemma_enc_tail_push(rs.drop_first(), p);
        assert(enc_records(rs.push(p)) =~= enc_records(rs) + seq![B_COMMA] + rec_bytes(p));
    }
}

/// Append the encoding of one record.
pub(crate) fn push_record(out: &mut Vec<u8>, p: &crate::particle::Particle, frames: &(Vec<u8>, Vec<u8>, Vec<u8>, Vec<u8>, Vec<u8>, Vec<u8>, Vec<u8>, Vec<u8>))
    requires
        frames.0@ == lit_x(),
        frames.1@ == lit_y(),
        frames.2@ == lit_xv(),
        frames.3@ == lit_yv(),
        frames.4@ == lit_st(),
        frames.5@ == lit_mass(),
        frames.6@ == lit_true(),
        frames.7@ == lit_false(),
    ensures
        final(out)@ == old(out)@ + rec_bytes(p.persisted()),
{
    push_bytes(out, &frames.0);
    push_dec(out, p.x);
    push_bytes(out, &frames.1);
    push_dec(out, p.y);
    push_bytes(out, &frames.2);
    push_dec(out, p.xv);
    push_bytes(out, &frames.3);
    push_dec(out, p.yv);
    push_bytes(out, &frames.4);
    if p.anchor {
        push_bytes(out, &frames.6);
    } else {
        push_bytes(out, &frames.7);
    }
    push_bytes(out, &frames.5);
    push_dec(out, p.mass);
    out.push(B_RBRACE);
    proof {
        assert(out@ =~= old(out)@ + rec_bytes(p.persisted()));
    }
}

/// Encode the particle list as a snapshot.  Every field but the trail is
/// written; each scalar appears as the decimal value of its bit pattern, so
/// the encoding is exact for every double, a negative, zero or non-finite
/// pattern included.
#[verifier::loop_isolation(false)]
pub fn encode(particles: &Vec<crate::particle::Particle>) -> (out: Vec<u8>)
    ensures
        out@ == encode_spec(persist_seq(particles@)),
{
    let frames = frame_bytes();
    let mut out: Vec<u8> = Vec::new();
    out.push(B_LBRACKET);
    let ghost pre = particles@;
    let mut i: usize = 0;
    while i < particles.len()
        invariant
            i <= pre.len(),
            particles@ == pre,
            out@ == seq![B_LBRACKET] + enc_records(persist_seq(pre).take(i as int)),
        decreases pre.len() - i,
    {
        if i > 0 {
            out.push(B_COMMA);
        }
        push_record(&mut out, &particles[i], &frames);
        proof {
            let done = persist_seq(pre).take(i as int);
            assert(persist_seq(pre).take(i as int + 1) =~= done.push(pre[i as int].persisted()));
            lemma_enc_records_push(done, pre[i as int].persisted());
            assert(out@ =~= seq![B_LBRACKET] + enc_records(persist_seq(pre).take(i as int + 1)));
        }
        i = i + 1;
    }
    out.push(B_RBRACKET);
    proof {
        assert(persist_seq(pre).take(pre.len() as int) =~= persist_seq(pre));
        assert(out@ =~= encode_spec(persist_seq(pre)));
    }
    out
}

/// What parsing a boolean keyword at `i` yields.
pub open spec fn spec_parse_bool(s: Seq<u8>, i: int) -> Option<(bool, int)> {
    if spec_expect(s, i, lit_true()) {
        Some((true, i + 4))
    } else if spec_expect(s, i, lit_false()) {
        Some((false, i + 5))
    } else {
        None
    }
}

/// What parsing one record at `i` yields: the record and the index past its
/// closing brace, or `None` when the bytes do not follow the grammar.
pub open spec fn spec_parse_record(s: Seq<u8>, i: int) -> Option<
    (crate::particle::PersistedParticle, int),
> {
    if !spec_expect(s, i, lit_x()) {
        None
    } else {
        match spec_parse_num(s, i + 5) {
            None => None,
            Some((x, i2)) => if !spec_expect(s, i2, lit_y()) {
                None
            } else {
                match spec_parse_num(s, i2 + 5) {
                    None => None,
                    Some((y, i3)) => if !spec_expect(s, i3, lit_xv()) {
                        None
                    } else {
                        match spec_parse_num(s, i3 + 6) {
                            None => None,
                            Some((xv, i4)) => if !spec_expect(s, i4, lit_yv()) {
                                None
                            } else {
                                match spec_parse_num(s, i4 + 6) {
                                    None => None,
                                    Some((yv, i5)) => if !spec_expect(s, i5, lit_st()) {
                                        None
                                    } else {
                                        match spec_parse_bool(s, i5 + 14) {
                                            None => None,
                                            Some((st, i6)) => if !spec_expect(s, i6, lit_mass()) {
                                                None
                                            } else {
                                                match spec_parse_num(s, i6 + 8) {
                                                    None => None,
                                                    Some((mass, i7)) => if i7 < s.len() && s[i7]
                                                        == B_RBRACE {
                                                        Some(
                                                            (
                                                                crate::particle::PersistedParticle {
                                                                    x,
                                                                    y,
                                                                    xv,
                                                                    yv,
                                                                    stationary: st,
                                                                    mass,
                                                                },
                                                                i7 + 1,
                                                            ),
                                                        )
                                                    } else {
                                                        None
                                                    },
                                                }
                                            },
                                        }
                                    },
                                }
                            },
                        }
                    },
                }
            },
        }
    }
}

/// A parsed record sits strictly between `i` and the end of the bytes.
pub(crate) proof fn lemma_parse_record_bounds(s: Seq<u8>, i: int)
    ensures
        spec_parse_record(s, i) matches Some((p, j)) ==> i < j <= s.len(),
{
    if spec_expect(s, i, lit_x()) {
        lemma_num_end(s, i + 5);
        if spec_parse_num(s, i + 5) is Some {
            let i2 = spec_parse_num(s, i + 5)->Some_0.1;
            if spec_expect(s, i2, lit_y()) {
                lemma_num_end(s, i2 + 5);
                if spec_parse_num(s, i2 + 5) is Some {
                    let i3 = spec_parse_num(s, i2 + 5)->Some_0.1;
                    if spec_expect(s, i3, lit_xv()) {
                        lemma_num_end(s, i3 + 6);
                        if spec_parse_num(s, i3 + 6) is Some {
                            let i4 = spec_parse_num(s, i3 + 6)->Some_0.1;
                            if spec_expect(s, i4, lit_yv()) {
                                lemma_num_end(s, i4 + 6);
                                if spec_parse_num(s, i4 + 6) is Some {
                                    let i5 = spec_parse_num(s, i4 + 6)->Some_0.1;
                                    if spec_expect(s, i5, lit_st()) && spec_parse_bool(s, i5 + 14)
                                        is Some {
                                        let i6 = spec_parse_bool(s, i5 + 14)->Some_0.1;
                                        if spec_expect(s, i6, lit_mass()) {
                                            lemma_num_end(s, i6 + 8);
                                        }
                                    }
                                }
                            }
                        }
                    }
                }
            }
        }
    }
}

/// What parsing a comma-separated run of records at `i` yields: the records
/// and the index past the last one.
pub open spec fn spec_parse_records(s: Seq<u8>, i: int) -> Option<
    (Seq<crate::particle::PersistedParticle>, int),
>
    decreases s.len() - i
        via spec_parse_records_decreases
{
    match spec_parse_record(s, i) {
        None => None,
        Some((p, j)) => if j < s.len() && s[j] == B_COMMA {
            match spec_parse_records(s, j + 1) {
                None => None,
                Some((rest, k)) => Some((seq![p] + rest, k)),
            }
        } else {
            Some((seq![p], j))
        },
    }
}

#[via_fn]
proof fn spec_parse_records_decreases(s: Seq<u8>, i: int) {
    lemma_parse_record_bounds(s, i);
}

/// What decoding a whole snapshot yields: the records between the brackets,
/// or `None` when the bytes do not follow the grammar exactly.
pub open spec fn spec_decode(s: Seq<u8>) -> Option<Seq<crate::particle::PersistedParticle>> {
    if s.len() < 2 || s[0] != B_LBRACKET {
        None
    } else if s[1] == B_RBRACKET {
        if s.len() == 2 {
            Some(Seq::<crate::particle::PersistedParticle>::empty())
        } else {
            None
        }
    } else {
        match spec_parse_records(s, 1) {
            None => None,
            Some((rs, j)) => if j == s.len() - 1 && s[j] == B_RBRACKET {
                Some(rs)
            } else {
                None
            },
        }
    }
}

/// Parse a boolean keyword at `i`.
pub(crate) fn parse_bool(s: &[u8], i: usize, frames: &(Vec<u8>, Vec<u8>, Vec<u8>, Vec<u8>, Vec<u8>, Vec<u8>, Vec<u8>, Vec<u8>)) -> (r: Option<(bool, usize)>)
    requires
        i <= s@.len(),
        frames.6@ == lit_true(),
        frames.7@ == lit_false(),
    ensures
        match r {
            Some((b, e)) => spec_parse_bool(s@, i as int) == Some((b, e as int)) && i < e
                <= s@.len(),
            None => spec_parse_bool(s@, i as int) is None,
        },
{
    let slen = s.len();
    if expect_bytes(s, i, &frames.6) {
        Some((true, i + 4))
    } else if expect_bytes(s, i, &frames.7) {
        Some((false, i + 5))
    } else {
        None
    }
}

/// Parse one record at `i`.
pub(crate) fn parse_record(s: &[u8], i: usize, frames: &(Vec<u8>, Vec<u8>, Vec<u8>, Vec<u8>, Vec<u8>, Vec<u8>, Vec<u8>, Vec<u8>)) -> (r: Option<
    (crate::particle::PersistedParticle, usize),
>)
    requires
        i <= s@.len(),
        frames.0@ == lit_x(),
        frames.1@ == lit_y(),
        frames.2@ == lit_xv(),
        frames.3@ == lit_yv(),
        frames.4@ == lit_st(),
        frames.5@ == lit_mass(),
        frames.6@ == lit_true(),
        frames.7@ == lit_false(),
    ensures
        match r {
            Some((p, e)) => spec_parse_record(s@, i as int) == Some((p, e as int)) && i < e
                <= s@.len(),
            None => spec_parse_record(s@, i as int) is None,
        },
{
    let slen = s.len();
    if !expect_bytes(s, i, &frames.0) {
        return None;
    }
    let (x, i2) = match parse_num(s, i + 5) {
        Some(v) => v,
        None => { return None },
    };
    if !expect_bytes(s, i2, &frames.1) {
        return None;
    }
    let (y, i3) = match parse_num(s, i2 + 5) {
        Some(v) => v,
        None => { return None },
    };
    if !expect_bytes(s, i3, &frames.2) {
        return None;
    }
    let (xv, i4) = match parse_num(s, i3 + 6) {
        Some(v) => v,
        None => { return None },
    };
    if !expect_bytes(s, i4, &frames.3) {
        return None;
    }
    let (yv, i5) = match parse_num(s, i4 + 6) {
        Some(v) => v,
        None => { return None },
    };
    if !expect_bytes(s, i5, &frames.4) {
        return None;
    }
    let (st, i6) = match parse_bool(s, i5 + 14, frames) {
        Some(v) => v,
        None => { return None },
    };
    if !expect_bytes(s, i6, &frames.5) {
        return None;
    }
    let (mass, i7) = match parse_num(s, i6 + 8) {
        Some(v) => v,
        None => { return None },
    };
    if i7 < s.len() && s[i7] == B_RBRACE {
        Some((crate::particle::PersistedParticle { x, y, xv, yv, stationary: st, mass }, i7 + 1))
    } else {
        None
    }
}

/// Parse a comma-separated run of records at `i`, appending them to `out`.
pub(crate) fn parse_records_into(
    s: &[u8],
    i: usize,
    out: &mut Vec<crate::particle::PersistedParticle>,
    frames: &(Vec<u8>, Vec<u8>, Vec<u8>, Vec<u8>, Vec<u8>, Vec<u8>, Vec<u8>, Vec<u8>),
) -> (r: Option<usize>)
    requires
        i <= s@.len(),
        frames.0@ == lit_x(),
        frames.1@ == lit_y(),
        frames.2@ == lit_xv(),
        frames.3@ == lit_yv(),
        frames.4@ == lit_st(),
        frames.5@ == lit_mass(),
        frames.6@ == lit_true(),
        frames.7@ == lit_false(),
    ensures
        match r {
            Some(e) => (spec_parse_records(s@, i as int) matches Some((rs, j)) && j == e as int
                && final(out)@ == old(out)@ + rs && e <= s@.len()),
            None => spec_parse_records(s@, i as int) is None && final(out)@ == old(out)@,
        },
    decreases s@.len() - i,
{
    let (p, j) = match parse_record(s, i, frames) {
        Some(v) => v,
        None => { return None },
    };
    if j < s.len() && s[j] == B_COMMA {
        out.push(p);
        let r = parse_records_into(s, j + 1, out, frames);
        match r {
            Some(e) => {
                proof {
                    let (rest, k) = spec_parse_records(s@, j as int + 1)->Some_0;
                    assert(out@ =~= old(out)@ + (seq![p] + rest));
                }
                Some(e)
            },
            None => {
                let n = out.len();
                out.truncate(n - 1);
                proof {
                    assert(out@ =~= old(out)@);
                }
                None
            },
        }
    } else {
        out.push(p);
        proof {
            assert(out@ =~= old(out)@ + seq![p]);
        }
        Some(j)
    }
}

/// Parsing a number at the canonical digits of `n` yields `n` and stops at
/// the byte after them.
proof fn lemma_parse_num_at(s: Seq<u8>, i: int, n: u64)
    requires
        0 <= i,
        i + dec_of(n as nat).len() <= s.len(),
        s.subrange(i, i + dec_of(n as nat).len()) == dec_of(n as nat),
        i + dec_of(n as nat).len() == s.len() || !is_digit(s[i + dec_of(n as nat).len()]),
    ensures
        spec_parse_num(s, i) == Some((n, i + dec_of(n as nat).len())),
{
    let d = dec_of(n as nat);
    lemma_dec_of_val(n as nat);
    assert forall|k: int| i <= k < i + d.len() implies is_digit(#[trigger] s[k]) by {
        assert(s[k] == s.subrange(i, i + d.len())[k - i]);
    }
    lemma_num_end_lower(s, i, i + d.len());
    lemma_num_end(s, i);
    assert(num_end(s, i) == i + d.len()) by {
        if num_end(s, i) > i + d.len() {
            assert(is_digit(s[i + d.len()]));
        }
    }
    assert(val_of(s.subrange(i, num_end(s, i))) == n);
}

/// A keyword mismatch: the bytes at `i` starting with `false` do not start
/// with `true`, and the other way round.
proof fn lemma_bool_at(s: Seq<u8>, i: int, b: bool)
    requires
        0 <= i,
        i + bool_bytes(b).len() <= s.len(),
        s.subrange(i, i + bool_bytes(b).len()) == bool_bytes(b),
    ensures
        spec_parse_bool(s, i) == Some((b, i + bool_bytes(b).len())),
{
    if b {
        assert(s.subrange(i, i + 4) == lit_true());
    } else {
        assert(s[i] == s.subrange(i, i + 5)[0]);
        assert(s[i] == 102);
        assert(!spec_expect(s, i, lit_true())) by {
            if spec_expect(s, i, lit_true()) {
                assert(s.subrange(i, i + 4)[0] == 116);
            }
        }
    }
}

/// Parsing a record at its own encoding yields the record and stops past its
/// closing brace.
#[verifier::rlimit(100)]
proof fn lemma_parse_record_at(s: Seq<u8>, i: int, p: crate::particle::PersistedParticle)
    requires
        0 <= i,
        i + rec_bytes(p).len() <= s.len(),
        s.subrange(i, i + rec_bytes(p).len()) == rec_bytes(p),
    ensures
        spec_parse_record(s, i) == Some((p, i + rec_bytes(p).len())),
{
    let dx = dec_of(p.x as nat);
    let dy = dec_of(p.y as nat);
    let dxv = dec_of(p.xv as nat);
    let dyv = dec_of(p.yv as nat);
    let db = bool_bytes(p.stationary);
    let dm = dec_of(p.mass as nat);
    let o1 = i + 5;
    let o2 = o1 + dx.len();
    let o3 = o2 + 5;
    let o4 = o3 + dy.len();
    let o5 = o4 + 6;
    let o6 = o5 + dxv.len();
    let o7 = o6 + 6;
    let o8 = o7 + dyv.len();
    let o9 = o8 + 14;
    let o10 = o9 + db.len();
    let o11 = o10 + 8;
    let o12 = o11 + dm.len();
    let oend = o12 + 1;
    assert(oend == i + rec_bytes(p).len());
    assert forall|k: int| i <= k < oend implies s[k] == rec_bytes(p)[k - i] by {
        assert(s[k] == s.subrange(i, i + rec_bytes(p).len())[k - i]);
    }
    assert(s.subrange(i, o1) =~= lit_x());
    assert(s.subrange(o1, o2) =~= dx);
    assert(s.subrange(o2, o3) =~= lit_y());
    assert(s.subrange(o3, o4) =~= dy);
    assert(s.subrange(o4, o5) =~= lit_xv());
    assert(s.subrange(o5, o6) =~= dxv);
    assert(s.subrange(o6, o7) =~= lit_yv());
    assert(s.subrange(o7, o8) =~= dyv);
    assert(s.subrange(o8, o9) =~= lit_st());
    assert(s.subrange(o9, o10) =~= db);
    assert(s.subrange(o10, o11) =~= lit_mass());
    assert(s.subrange(o11, o12) =~= dm);
    assert(s[o12] == B_RBRACE);
    assert(s[o2] == B_COMMA);
    assert(s[o4] == B_COMMA);
    assert(s[o6] == B_COMMA);
    assert(s[o8] == B_COMMA);
    assert(s[o10] == B_COMMA);
    lemma_parse_num_at(s, o1, p.x);
    lemma_parse_num_at(s, o3, p.y);
    lemma_parse_num_at(s, o5, p.xv);
    lemma_parse_num_at(s, o7, p.yv);
    lemma_bool_at(s, o9, p.stationary);
    lemma_parse_num_at(s, o11, p.mass);
}

/// When the records are not the last thing in the list, their tail encoding
/// is a comma followed by their own encoding.
proof fn lemma_enc_tail_records(rs: Seq<crate::particle::PersistedParticle>)
    requires
        rs.len() >= 1,
    ensures
        enc_tail(rs) == seq![B_COMMA] + enc_records(rs),
{
    assert(enc_tail(rs) =~= seq![B_COMMA] + enc_records(rs));
}

/// Parsing a record run at its own encoding yields the records, provided the
/// byte after the encoding is not a comma.
#[verifier::rlimit(100)]
proof fn lemma_parse_records_at(s: Seq<u8>, i: int, rs: Seq<crate::particle::PersistedParticle>)
    requires
        rs.len() >= 1,
        0 <= i,
        i + enc_records(rs).len() < s.len(),
        s.subrange(i, i + enc_records(rs).len()) == enc_records(rs),
        s[i + enc_records(rs).len()] != B_COMMA,
    ensures
        spec_parse_records(s, i) == Some((rs, i + enc_records(rs).len())),
    decreases rs.len(),
{
    let rest = rs.drop_first();
    let r0 = rec_bytes(rs[0]);
    let whole = enc_records(rs);
    assert(whole == r0 + enc_tail(rest));
    assert forall|k: int| i <= k < i + whole.len() implies s[k] == whole[k - i] by {
        assert(s[k] == s.subrange(i, i + whole.len())[k - i]);
    }
    let j = i + r0.len();
    if rest.len() == 0 {
        assert(whole =~= r0);
        assert(s.subrange(i, j) =~= r0);
        lemma_parse_record_at(s, i, rs[0]);
        assert(s[j] != B_COMMA);
        assert(seq![rs[0]] =~= rs);
    } else {
        lemma_enc_tail_records(rest);
        assert(s.subrange(i, j) =~= r0);
        lemma_parse_record_at(s, i, rs[0]);
        assert(s[j] == enc_tail(rest)[0]);
        assert(s[j] == B_COMMA);
        assert(s.subrange(j + 1, i + whole.len()) =~= enc_records(rest));
        lemma_parse_records_at(s, j + 1, rest);
        assert(seq![rs[0]] + rest =~= rs);
    }
}

/// The codec round trip: decoding the encoding of any record sequence —
/// anchors, negative, zero or non-finite patterns included — yields exactly
/// that sequence.
pub proof fn lemma_snapshot_round_trip(rs: Seq<crate::particle::PersistedParticle>)
    ensures
        spec_decode(encode_spec(rs)) == Some(rs),
{
    let s = encode_spec(rs);
    assert(s[0] == B_LBRACKET);
    if rs.len() == 0 {
        assert(enc_records(rs) =~= Seq::<u8>::empty());
        assert(s.len() == 2);
        assert(s[1] == B_RBRACKET);
        assert(spec_decode(s) == Some(rs));
    } else {
        let e = enc_records(rs);
        assert(s.len() == e.len() + 2);
        assert(s[1] == e[0]);
        assert(e[0] == rec_bytes(rs[0])[0]);
        assert(e[0] == B_LBRACE);
        assert(s.subrange(1, 1 + e.len() as int) =~= e);
        assert(s[1 + e.len() as int] == B_RBRACKET);
        lemma_parse_records_at(s, 1, rs);
        assert(spec_decode(s) == Some(rs));
    }
}

/// Decoding failures: a read that could not be made, bytes that do not follow
/// the snapshot grammar, and a slot reserved for input validation, which is
/// not currently enforced anywhere.
#[derive(Clone, Copy, PartialEq, Eq, Structural, Debug)]
pub enum SnapshotError {
    IoError,
    ParseError,
    ValidationError,
}

/// Decode a snapshot into its records.  Succeeds exactly on the bytes the
/// grammar admits, and hands back the records in file order.
pub fn decode(s: &[u8]) -> (r: Result<Vec<crate::particle::PersistedParticle>, SnapshotError>)
    ensures
        match r {
            Ok(v) => spec_decode(s@) == Some(v@),
            Err(e) => spec_decode(s@) is None && e == SnapshotError::ParseError,
        },
{
    let frames = frame_bytes();
    if s.len() < 2 || s[0] != B_LBRACKET {
        return Err(SnapshotError::ParseError);
    }
    if s[1] == B_RBRACKET {
        if s.len() == 2 {
            return Ok(Vec::new());
        } else {
            return Err(SnapshotError::ParseError);
        }
    }
    let mut out: Vec<crate::particle::PersistedParticle> = Vec::new();
    match parse_records_into(s, 1, &mut out, &frames) {
        None => Err(SnapshotError::ParseError),
        Some(e) => {
            if e == s.len() - 1 && s[e] == B_RBRACKET {
                Ok(out)
            } else {
                Err(SnapshotError::ParseError)
            }
        },
    }
}

} // verus!
