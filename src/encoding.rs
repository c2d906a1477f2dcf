//! The canonical binary encoding that manifests are signed over: unsigned
//! integers as 8 little-endian bytes, byte strings and text as a length
//! followed by the bytes (text in UTF-8), lists as a count followed by the
//! items, and optional values as a tag byte (0 absent, 1 present) followed by
//! the value.
use vstd::prelude::*;
use vstd::utf8::encode_utf8;

verus! {

/// `k` little-endian base-256 digits of `n`.
pub open spec fn le_bytes(n: nat, k: nat) -> Seq<u8>
    decreases k,
{
    if k == 0 {
        Seq::empty()
    } else {
        seq![(n % 256) as u8] + le_bytes(n / 256, (k - 1) as nat)
    }
}

/// 256 to the power `k`.
pub open spec fn pow256(k: nat) -> nat
    decreases k,
{
    if k == 0 {
        1
    } else {
        256 * pow256((k - 1) as nat)
    }
}

/// An unsigned 64-bit integer: 8 bytes, least significant first.
pub open spec fn enc_u64(n: u64) -> Seq<u8> {
    le_bytes(n as nat, 8)
}

/// A byte string: its length, then its bytes.
pub open spec fn enc_bytes(b: Seq<u8>) -> Seq<u8> {
    enc_u64(b.len() as u64) + b
}

/// Text: its UTF-8 encoding as a byte string.
pub open spec fn enc_text(s: Seq<char>) -> Seq<u8> {
    enc_bytes(encode_utf8(s))
}

/// The encodings of a sequence of texts, one after another.
pub open spec fn enc_texts(v: Seq<Seq<char>>) -> Seq<u8>
    decreases v.len(),
{
    if v.len() == 0 {
        Seq::empty()
    } else {
        enc_texts(v.drop_last()) + enc_text(v.last())
    }
}

/// A list of texts: the count, then each text.
pub open spec fn enc_text_list(v: Seq<Seq<char>>) -> Seq<u8> {
    enc_u64(v.len() as u64) + enc_texts(v)
}

/// An optional byte string: tag 0, or tag 1 followed by the byte string.
pub open spec fn enc_option(o: Option<Seq<u8>>) -> Seq<u8> {
    match o {
        None => seq![0u8],
        Some(b) => seq![1u8] + enc_bytes(b),
    }
}

/// `s` holds `p` at position `at`.
pub open spec fn holds_at(s: Seq<u8>, at: int, p: Seq<u8>) -> bool {
    &&& 0 <= at
    &&& at + p.len() <= s.len()
    &&& s.subrange(at, at + p.len()) == p
}

proof fn lemma_pow256_step(k: nat)
    ensures
        pow256(k + 1) == 256 * pow256(k),
        pow256(k) >= 1,
    decreases k,
{
    if k > 0 {
        lemma_pow256_step((k - 1) as nat);
    }
}

proof fn lemma_pow256_mono(j: nat, k: nat)
    requires
        j <= k,
    ensures
        pow256(j) <= pow256(k),
    decreases k - j,
{
    if j < k {
        lemma_pow256_mono(j, (k - 1) as nat);
        lemma_pow256_step((k - 1) as nat);
    }
}

proof fn lemma_pow256_8()
    ensures
        pow256(8) == 0x1_0000_0000_0000_0000,
{
    reveal_with_fuel(pow256, 9);
}

proof fn lemma_le_bytes_len(n: nat, k: nat)
    ensures
        le_bytes(n, k).len() == k,
    decreases k,
{
    if k > 0 {
        lemma_le_bytes_len(n / 256, (k - 1) as nat);
    }
}

proof fn lemma_le_bytes_injective(a: nat, b: nat, k: nat)
    requires
        a < pow256(k),
        b < pow256(k),
        le_bytes(a, k) == le_bytes(b, k),
    ensures
        a == b,
    decreases k,
{
    if k == 0 {
    } else {
        let k1 = (k - 1) as nat;
        let sa = seq![(a % 256) as u8] + le_bytes(a / 256, k1);
        let sb = seq![(b % 256) as u8] + le_bytes(b / 256, k1);
        assert(le_bytes(a, k) == sa);
        assert(le_bytes(b, k) == sb);
        assert(sa[0] == sb[0]);
        assert((a % 256) as u8 == (b % 256) as u8);
        assert(a % 256 < 256 && b % 256 < 256);
        assert(a % 256 == b % 256);
        assert(le_bytes(a / 256, k1) =~= le_bytes(a, k).drop_first());
        assert(le_bytes(b / 256, k1) =~= le_bytes(b, k).drop_first());
        lemma_pow256_step(k1);
        assert(a / 256 < pow256(k1)) by (nonlinear_arith)
            requires
                a < 256 * pow256(k1),
        ;
        assert(b / 256 < pow256(k1)) by (nonlinear_arith)
            requires
                b < 256 * pow256(k1),
        ;
        lemma_le_bytes_injective(a / 256, b / 256, k1);
        assert(a == 256 * (a / 256) + a % 256);
        assert(b == 256 * (b / 256) + b % 256);
    }
}

/// Two integers with the same encoding are equal.
pub proof fn lemma_enc_u64_injective(a: u64, b: u64)
    requires
        enc_u64(a) == enc_u64(b),
    ensures
        a == b,
{
    lemma_pow256_8();
    lemma_le_bytes_injective(a as nat, b as nat, 8);
}

/// The encoding of an integer is 8 bytes long.
pub proof fn lemma_enc_u64_len(n: u64)
    ensures
        enc_u64(n).len() == 8,
{
    lemma_le_bytes_len(n as nat, 8);
}

/// Appends the encoding of `n`.
pub fn put_u64(out: &mut Vec<u8>, n: u64)
    ensures
        final(out)@ == old(out)@ + enc_u64(n),
{
    let ghost start = out@;
    let mut x: u64 = n;
    let mut i: usize = 0;
    while i < 8
        invariant
            i <= 8,
            out@ + le_bytes(x as nat, (8 - i) as nat) == start + le_bytes(n as nat, 8),
        decreases 8 - i,
    {
        let ghost before = out@;
        let ghost digit = (x as nat % 256) as u8;
        let ghost rest = le_bytes(x as nat / 256, (8 - i - 1) as nat);
        assert(le_bytes(x as nat, (8 - i) as nat) == seq![digit] + rest);
        out.push((x % 256) as u8);
        x = x / 256;
        i = i + 1;
        assert(out@ + rest =~= before + (seq![digit] + rest));
    }
    assert(out@ + le_bytes(x as nat, 0) =~= out@);
}

/// Appends the bytes of `b` as they are.
pub fn put_raw(out: &mut Vec<u8>, b: &[u8])
    ensures
        final(out)@ == old(out)@ + b@,
{
    let mut tail = vstd::slice::slice_to_vec(b);
    out.append(&mut tail);
}

/// Appends the encoding of a byte string.
pub fn put_bytes(out: &mut Vec<u8>, b: &[u8])
    ensures
        final(out)@ == old(out)@ + enc_bytes(b@),
{
    put_u64(out, b.len() as u64);
    put_raw(out, b);
    assert(final(out)@ =~= old(out)@ + enc_bytes(b@)) by {
        assert(enc_bytes(b@) == enc_u64(b@.len() as u64) + b@);
    }
}

/// Appends the encoding of a text.
pub fn put_text(out: &mut Vec<u8>, s: &str)
    ensures
        final(out)@ == old(out)@ + enc_text(s@),
{
    put_bytes(out, s.as_bytes());
}

/// Appends the encoding of an optional byte string.
pub fn put_option(out: &mut Vec<u8>, o: &Option<Vec<u8>>)
    ensures
        final(out)@ == old(out)@ + enc_option(match o {
            None => None,
            Some(b) => Some(b@),
        }),
{
    match o {
        None => {
            out.push(0u8);
            assert(final(out)@ =~= old(out)@ + seq![0u8]);
        },
        Some(b) => {
            out.push(1u8);
            put_bytes(out, b.as_slice());
            assert(final(out)@ =~= old(out)@ + (seq![1u8] + enc_bytes(b@)));
        },
    }
}

/// The views of a list of strings.
pub open spec fn texts_of(v: Seq<String>) -> Seq<Seq<char>> {
    v.map_values(|s: String| s@)
}

/// Appends the encoding of a list of texts.
pub fn put_text_list(out: &mut Vec<u8>, v: &Vec<String>)
    ensures
        final(out)@ == old(out)@ + enc_text_list(texts_of(v@)),
{
    let ghost start = out@;
    let ghost views = texts_of(v@);
    put_u64(out, v.len() as u64);
    let mut i: usize = 0;
    while i < v.len()
        invariant
            i <= v@.len(),
            views == texts_of(v@),
            out@ == start + enc_u64(v@.len() as u64) + enc_texts(views.take(i as int)),
        decreases v@.len() - i,
    {
        put_text(out, v[i].as_str());
        assert(views.take(i as int + 1).drop_last() =~= views.take(i as int));
        i = i + 1;
    }
    assert(views.take(v@.len() as int) =~= views);
    assert(out@ =~= start + enc_text_list(views));
}

} // verus!

verus! {

/// A run of bytes splits into its two parts.
pub proof fn lemma_holds_split(s: Seq<u8>, at: int, p: Seq<u8>, q: Seq<u8>)
    ensures
        holds_at(s, at, p + q) <==> (holds_at(s, at, p) && holds_at(s, at + p.len(), q)),
{
    let pq = p + q;
    if holds_at(s, at, pq) {
        let w = s.subrange(at, at + pq.len());
        assert(w == pq);
        assert(s.subrange(at, at + p.len()) =~= w.subrange(0, p.len() as int));
        assert(pq.subrange(0, p.len() as int) =~= p);
        assert(s.subrange(at + p.len(), at + p.len() + q.len()) =~= w.subrange(
            p.len() as int,
            pq.len() as int,
        ));
        assert(pq.subrange(p.len() as int, pq.len() as int) =~= q);
    }
    if holds_at(s, at, p) && holds_at(s, at + p.len(), q) {
        assert(s.subrange(at, at + p.len() + q.len()) =~= s.subrange(at, at + p.len()) + s.subrange(
            at + p.len(),
            at + p.len() + q.len(),
        ));
        assert(s.subrange(at, at + pq.len()) =~= pq);
    }
}

/// Reads an integer at `pos`: there is one exactly when 8 bytes remain.
pub fn get_u64(b: &[u8], pos: usize) -> (r: Option<(u64, usize)>)
    ensures
        match r {
            Some((n, p)) => p == pos + 8 && holds_at(b@, pos as int, enc_u64(n)),
            None => pos + 8 > b@.len(),
        },
        forall|x: u64| #[trigger]
            holds_at(b@, pos as int, enc_u64(x)) ==> r == Some((x, (pos + 8) as usize)),
{
    if pos > b.len() || b.len() - pos < 8 {
        proof {
            assert forall|x: u64| #[trigger] holds_at(b@, pos as int, enc_u64(x)) implies false by {
                lemma_enc_u64_len(x);
            }
        }
        return None;
    }
    let mut v: u64 = 0;
    let mut i: usize = 8;
    proof {
        lemma_pow256_8();
        assert(b@.subrange(pos + 8, pos + 8) =~= Seq::<u8>::empty());
    }
    while i > 0
        invariant
            pos + 8 <= b@.len(),
            pos + 8 <= b.len(),
            i <= 8,
            pow256(8) == 0x1_0000_0000_0000_0000,
            v < pow256((8 - i) as nat),
            le_bytes(v as nat, (8 - i) as nat) == b@.subrange(pos + i, pos + 8),
        decreases i,
    {
        i = i - 1;
        let d = b[pos + i];
        proof {
            lemma_pow256_step((8 - i - 1) as nat);
            lemma_pow256_mono((8 - i) as nat, 8);
            assert(v * 256 + d < pow256((8 - i) as nat)) by (nonlinear_arith)
                requires
                    v < pow256((8 - i - 1) as nat),
                    pow256((8 - i) as nat) == 256 * pow256((8 - i - 1) as nat),
                    d < 256,
            ;
        }
        let w: u64 = v * 256 + d as u64;
        proof {
            assert(w as nat % 256 == d as nat && w as nat / 256 == v as nat) by (nonlinear_arith)
                requires
                    w == v * 256 + d,
                    d < 256,
            ;
            assert(le_bytes(w as nat, (8 - i) as nat) == seq![(w as nat % 256) as u8] + le_bytes(
                w as nat / 256,
                (8 - i - 1) as nat,
            ));
            assert(b@.subrange(pos + i, pos + 8) =~= seq![d] + b@.subrange(pos + i + 1, pos + 8));
        }
        v = w;
    }
    proof {
        lemma_le_bytes_len(v as nat, 8);
        assert forall|x: u64| #[trigger] holds_at(b@, pos as int, enc_u64(x)) implies v == x by {
            lemma_enc_u64_len(x);
            lemma_enc_u64_injective(v, x);
        }
    }
    Some((v, pos + 8))
}

/// Reads a byte string at `pos`.
pub fn get_bytes(b: &[u8], pos: usize) -> (r: Option<(Vec<u8>, usize)>)
    ensures
        r matches Some((v, p)) ==> p == pos + enc_bytes(v@).len() && holds_at(
            b@,
            pos as int,
            enc_bytes(v@),
        ),
        forall|x: Seq<u8>| #[trigger]
            holds_at(b@, pos as int, enc_bytes(x)) ==> (r matches Some((v, p)) && v@ == x),
{
    let (n, p) = match get_u64(b, pos) {
        Some(found) => found,
        None => {
            proof {
                assert forall|x: Seq<u8>| #[trigger] holds_at(b@, pos as int, enc_bytes(x)) implies false by {
                    lemma_holds_split(b@, pos as int, enc_u64(x.len() as u64), x);
                    lemma_enc_u64_len(x.len() as u64);
                }
            }
            return None;
        },
    };
    proof {
        lemma_enc_u64_len(n);
    }
    if n > (b.len() - p) as u64 {
        proof {
            assert forall|x: Seq<u8>| #[trigger] holds_at(b@, pos as int, enc_bytes(x)) implies false by {
                lemma_holds_split(b@, pos as int, enc_u64(x.len() as u64), x);
                lemma_enc_u64_len(x.len() as u64);
                assert(x.len() as u64 == n);
            }
        }
        return None;
    }
    let end = p + n as usize;
    let v = vstd::slice::slice_to_vec(vstd::slice::slice_subrange(b, p, end));
    proof {
        assert(v@.len() as u64 == n);
        lemma_holds_split(b@, pos as int, enc_u64(n), v@);
        assert forall|x: Seq<u8>| #[trigger] holds_at(b@, pos as int, enc_bytes(x)) implies v@ == x by {
            lemma_holds_split(b@, pos as int, enc_u64(x.len() as u64), x);
            lemma_enc_u64_len(x.len() as u64);
            assert(x.len() as u64 == n);
        }
    }
    Some((v, end))
}

/// Reads a text at `pos`.
pub fn get_text(b: &[u8], pos: usize) -> (r: Option<(String, usize)>)
    ensures
        r matches Some((s, p)) ==> p == pos + enc_text(s@).len() && holds_at(
            b@,
            pos as int,
            enc_text(s@),
        ),
        forall|x: Seq<char>| #[trigger]
            holds_at(b@, pos as int, enc_text(x)) ==> (r matches Some((s, p)) && s@ == x),
{
    let (v, p) = match get_bytes(b, pos) {
        Some(found) => found,
        None => {
            proof {
                assert forall|x: Seq<char>| #[trigger] holds_at(b@, pos as int, enc_text(x)) implies false by {
                    assert(holds_at(b@, pos as int, enc_bytes(encode_utf8(x))));
                }
            }
            return None;
        },
    };
    let ghost bytes = v@;
    match crate::crypto::utf8_text(v) {
        Some(s) => {
            proof {
                vstd::utf8::encode_utf8_decode_utf8(s@);
                assert forall|x: Seq<char>| #[trigger] holds_at(b@, pos as int, enc_text(x)) implies s@
                    == x by {
                    assert(holds_at(b@, pos as int, enc_bytes(encode_utf8(x))));
                    vstd::utf8::encode_utf8_decode_utf8(x);
                }
            }
            Some((s, p))
        },
        None => {
            proof {
                assert forall|x: Seq<char>| #[trigger] holds_at(b@, pos as int, enc_text(x)) implies false by {
                    assert(holds_at(b@, pos as int, enc_bytes(encode_utf8(x))));
                    vstd::utf8::encode_utf8_valid_utf8(x);
                }
            }
            None
        },
    }
}

/// Reads an optional byte string at `pos`.
pub fn get_option(b: &[u8], pos: usize) -> (r: Option<(Option<Vec<u8>>, usize)>)
    ensures
        r matches Some((o, p)) ==> {
            let ov = match o {
                None => None,
                Some(v) => Some(v@),
            };
            p == pos + enc_option(ov).len() && holds_at(b@, pos as int, enc_option(ov))
        },
        forall|x: Option<Seq<u8>>| #[trigger]
            holds_at(b@, pos as int, enc_option(x)) ==> (r matches Some((o, p)) && match o {
                None => x is None,
                Some(v) => x == Some(v@),
            }),
{
    if pos >= b.len() {
        return None;
    }
    let tag = b[pos];
    proof {
        assert forall|x: Option<Seq<u8>>| #[trigger] holds_at(b@, pos as int, enc_option(x)) implies (
        match x {
            None => tag == 0,
            Some(y) => tag == 1 && holds_at(b@, pos + 1, enc_bytes(y)),
        }) by {
            match x {
                None => {
                    assert(b@.subrange(pos as int, pos + 1)[0] == b@[pos as int]);
                },
                Some(y) => {
                    lemma_holds_split(b@, pos as int, seq![1u8], enc_bytes(y));
                    assert(b@.subrange(pos as int, pos + 1)[0] == b@[pos as int]);
                },
            }
        }
    }
    if tag == 0 {
        assert(b@.subrange(pos as int, pos + 1) =~= seq![0u8]);
        Some((None, pos + 1))
    } else if tag == 1 {
        match get_bytes(b, pos + 1) {
            Some((v, p)) => {
                proof {
                    assert(b@.subrange(pos as int, pos + 1) =~= seq![1u8]);
                    lemma_holds_split(b@, pos as int, seq![1u8], enc_bytes(v@));
                }
                Some((Some(v), p))
            },
            None => None,
        }
    } else {
        None
    }
}

/// Reads a list of texts at `pos`.
pub fn get_text_list(b: &[u8], pos: usize) -> (r: Option<(Vec<String>, usize)>)
    ensures
        r matches Some((v, p)) ==> p == pos + enc_text_list(texts_of(v@)).len() && holds_at(
            b@,
            pos as int,
            enc_text_list(texts_of(v@)),
        ),
        forall|x: Seq<Seq<char>>| #[trigger]
            holds_at(b@, pos as int, enc_text_list(x)) ==> (r matches Some((v, p)) && texts_of(v@)
                == x),
{
    let (n, mut cur) = match get_u64(b, pos) {
        Some(found) => found,
        None => {
            proof {
                assert forall|x: Seq<Seq<char>>| #[trigger] holds_at(b@, pos as int, enc_text_list(x)) implies false by {
                    lemma_holds_split(b@, pos as int, enc_u64(x.len() as u64), enc_texts(x));
                    lemma_enc_u64_len(x.len() as u64);
                }
            }
            return None;
        },
    };
    let total = b.len();
    let mut out: Vec<String> = Vec::new();
    let mut i: u64 = 0;
    proof {
        assert forall|x: Seq<Seq<char>>| #[trigger] holds_at(b@, pos as int, enc_text_list(x)) implies x.len() == n by {
            lemma_holds_split(b@, pos as int, enc_u64(x.len() as u64), enc_texts(x));
            lemma_enc_texts_len(x);
            lemma_enc_u64_len(x.len() as u64);
            assert(b@.len() == total);
            assert(x.len() <= u64::MAX);
            assert(holds_at(b@, pos as int, enc_u64(x.len() as u64)));
        }
        lemma_enc_u64_len(n);
        assert(texts_of(out@) =~= Seq::<Seq<char>>::empty());
        assert(enc_u64(n) + enc_texts(texts_of(out@)) =~= enc_u64(n));
    }
    while i < n
        invariant
            i <= n,
            out@.len() == i,
            holds_at(b@, pos as int, enc_u64(n) + enc_texts(texts_of(out@))),
            cur == pos + 8 + enc_texts(texts_of(out@)).len(),
            enc_u64(n).len() == 8,
            forall|x: Seq<Seq<char>>| #[trigger]
                holds_at(b@, pos as int, enc_text_list(x)) ==> x.len() == n && texts_of(out@)
                    == x.take(i as int),
        decreases n - i,
    {
        let ghost done = texts_of(out@);
        let (s, next) = match get_text(b, cur) {
            Some(found) => found,
            None => {
                proof {
                    assert forall|x: Seq<Seq<char>>| #[trigger] holds_at(b@, pos as int, enc_text_list(x)) implies false by {
                        self::lemma_text_list_item(b@, pos as int, x, i as int);
                    }
                }
                return None;
            },
        };
        proof {
            assert forall|x: Seq<Seq<char>>| #[trigger] holds_at(b@, pos as int, enc_text_list(x)) implies x.take(i as int + 1) == done.push(s@) by {
                self::lemma_text_list_item(b@, pos as int, x, i as int);
                assert(x.take(i as int + 1) =~= x.take(i as int).push(x[i as int]));
            }
        }
        out.push(s);
        proof {
            assert(texts_of(out@) =~= done.push(s@));
            assert(texts_of(out@).drop_last() =~= done);
            assert(enc_u64(n) + enc_texts(texts_of(out@)) =~= (enc_u64(n) + enc_texts(done)) + enc_text(s@));
            lemma_holds_split(b@, pos as int, enc_u64(n) + enc_texts(done), enc_text(s@));
        }
        cur = next;
        i = i + 1;
    }
    proof {
        assert forall|x: Seq<Seq<char>>| #[trigger] holds_at(b@, pos as int, enc_text_list(x)) implies texts_of(out@) == x by {
            assert(x.take(n as int) =~= x);
        }
        assert(texts_of(out@).len() as u64 == n);
    }
    Some((out, cur))
}

/// If a list of texts is encoded at `pos`, then after the count and the
/// first `i` texts comes the encoding of text `i`.
proof fn lemma_text_list_item(s: Seq<u8>, pos: int, x: Seq<Seq<char>>, i: int)
    requires
        holds_at(s, pos, enc_text_list(x)),
        0 <= i < x.len(),
    ensures
        holds_at(s, pos, enc_u64(x.len() as u64) + enc_texts(x.take(i))),
        holds_at(s, pos + 8 + enc_texts(x.take(i)).len(), enc_text(x[i])),
{
    lemma_enc_u64_len(x.len() as u64);
    lemma_holds_split(s, pos, enc_u64(x.len() as u64), enc_texts(x));
    lemma_texts_prefix(x, i + 1);
    let front = enc_texts(x.take(i + 1));
    let back = enc_texts_from(x, i + 1);
    lemma_holds_split(s, pos + 8, front, back);
    assert(x.take(i + 1).drop_last() =~= x.take(i));
    lemma_holds_split(s, pos + 8, enc_texts(x.take(i)), enc_text(x[i]));
    lemma_holds_split(s, pos, enc_u64(x.len() as u64), enc_texts(x.take(i)));
}

proof fn lemma_enc_texts_len(x: Seq<Seq<char>>)
    ensures
        enc_texts(x).len() >= 8 * x.len(),
    decreases x.len(),
{
    if x.len() > 0 {
        lemma_enc_texts_len(x.drop_last());
        lemma_enc_u64_len(encode_utf8(x.last()).len() as u64);
    }
}

/// The encodings of the texts from index `k` on.
spec fn enc_texts_from(x: Seq<Seq<char>>, k: int) -> Seq<u8>
    decreases x.len() - k,
{
    if k >= x.len() {
        Seq::empty()
    } else {
        enc_text(x[k]) + enc_texts_from(x, k + 1)
    }
}

proof fn lemma_texts_prefix(x: Seq<Seq<char>>, k: int)
    requires
        0 <= k <= x.len(),
    ensures
        enc_texts(x) == enc_texts(x.take(k)) + enc_texts_from(x, k),
    decreases x.len() - k,
{
    if k == x.len() {
        assert(x.take(k) =~= x);
        assert(enc_texts(x) =~= enc_texts(x.take(k)) + Seq::<u8>::empty());
    } else {
        lemma_texts_prefix(x, k + 1);
        assert(x.take(k + 1).drop_last() =~= x.take(k));
        assert(enc_texts(x.take(k + 1)) == enc_texts(x.take(k)) + enc_text(x[k]));
        assert(enc_texts(x) =~= enc_texts(x.take(k)) + enc_texts_from(x, k));
    }
}

} // verus!
