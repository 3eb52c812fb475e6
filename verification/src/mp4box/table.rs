//! Tables of fixed-width entries: what a run of entries is written as, and
//! what entries a run of bytes holds.

use crate::codec::{be_u32, lemma_u32_round_trip, u32_be};
use vstd::prelude::*;

verus! {

/// The bytes of the entries `es`, one after another, each written by `enc`.
pub open spec fn concat<E>(es: Seq<E>, enc: spec_fn(E) -> Seq<u8>) -> Seq<u8>
    decreases es.len(),
{
    if es.len() == 0 {
        Seq::empty()
    } else {
        concat(es.drop_last(), enc) + enc(es.last())
    }
}

/// The `count` entries of `width` bytes each that `p` holds from `start`
/// on, each read by `dec`.
pub open spec fn table<E>(
    p: Seq<u8>,
    start: int,
    width: int,
    count: nat,
    dec: spec_fn(Seq<u8>, int) -> E,
) -> Seq<E> {
    Seq::new(count, |i: int| dec(p, start + width * i))
}

/// `enc` writes `width` bytes, and `dec` reads back what `enc` wrote,
/// whatever stands before and after.
pub open spec fn inverse<E>(
    enc: spec_fn(E) -> Seq<u8>,
    dec: spec_fn(Seq<u8>, int) -> E,
    width: nat,
) -> bool {
    &&& forall|e: E| (#[trigger] enc(e)).len() == width
    &&& forall|e: E, a: Seq<u8>, b: Seq<u8>| #[trigger] dec(a + enc(e) + b, a.len() as int) == e
}

/// The first `i + 1` entries are written as the first `i` followed by
/// entry `i`.
pub proof fn lemma_concat_take<E>(es: Seq<E>, i: int, enc: spec_fn(E) -> Seq<u8>)
    requires
        0 <= i < es.len(),
    ensures
        concat(es.take(i + 1), enc) == concat(es.take(i), enc) + enc(es[i]),
        es.take(es.len() as int) == es,
{
    assert(es.take(i + 1).drop_last() =~= es.take(i));
    assert(es.take(es.len() as int) =~= es);
}

/// A run of entries is written as its first entry followed by the rest.
pub proof fn lemma_concat_front<E>(es: Seq<E>, enc: spec_fn(E) -> Seq<u8>)
    requires
        es.len() > 0,
    ensures
        concat(es, enc) == enc(es[0]) + concat(es.skip(1), enc),
    decreases es.len(),
{
    if es.len() == 1 {
        assert(es.drop_last() =~= Seq::<E>::empty());
        assert(es.skip(1) =~= Seq::<E>::empty());
        assert(concat(es, enc) =~= enc(es[0]) + concat(es.skip(1), enc));
    } else {
        let init = es.drop_last();
        lemma_concat_front(init, enc);
        assert(init.skip(1) =~= es.skip(1).drop_last());
        assert(es.skip(1).last() == es.last());
        assert(concat(es, enc) =~= enc(es[0]) + concat(es.skip(1), enc));
    }
}

/// A run of entries of one width has the length of their number times the
/// width.
pub proof fn lemma_concat_len<E>(es: Seq<E>, enc: spec_fn(E) -> Seq<u8>, width: nat)
    requires
        forall|e: E| (#[trigger] enc(e)).len() == width,
    ensures
        concat(es, enc).len() == width * es.len(),
    decreases es.len(),
{
    if es.len() > 0 {
        lemma_concat_len(es.drop_last(), enc, width);
        assert(width * es.len() == width * (es.len() - 1) + width) by (nonlinear_arith);
    } else {
        assert(width * 0 == 0) by (nonlinear_arith);
    }
}

/// Reading a table back from the bytes it was written as gives its entries.
pub proof fn lemma_table_round_trip<E>(
    es: Seq<E>,
    enc: spec_fn(E) -> Seq<u8>,
    dec: spec_fn(Seq<u8>, int) -> E,
    width: nat,
    pre: Seq<u8>,
    post: Seq<u8>,
)
    requires
        inverse(enc, dec, width),
    ensures
        concat(es, enc).len() == width * es.len(),
        table(pre + concat(es, enc) + post, pre.len() as int, width as int, es.len(), dec) == es,
    decreases es.len(),
{
    lemma_concat_len(es, enc, width);
    let s = pre + concat(es, enc) + post;
    let t = table(s, pre.len() as int, width as int, es.len(), dec);
    if es.len() > 0 {
        let init = es.drop_last();
        let last = es.last();
        lemma_table_round_trip(init, enc, dec, width, pre, enc(last) + post);
        lemma_concat_len(init, enc, width);
        let a = pre + concat(init, enc);
        assert(s =~= pre + concat(init, enc) + (enc(last) + post));
        assert(s =~= a + enc(last) + post);
        assert(dec(a + enc(last) + post, a.len() as int) == last);
        assert(a.len() == pre.len() + width * init.len());
        let t0 = table(s, pre.len() as int, width as int, init.len(), dec);
        assert(t0 == init);
        assert forall|i: int| 0 <= i < es.len() implies t[i] == es[i] by {
            if i < init.len() {
                assert(t[i] == t0[i]);
            }
        }
    }
    assert(t =~= es);
}

/// `enc` writes `width` bytes, and `dec` reads back what `enc` wrote of an
/// entry that `ok` admits, whatever stands before and after.
pub open spec fn inverse_on<E>(
    enc: spec_fn(E) -> Seq<u8>,
    dec: spec_fn(Seq<u8>, int) -> E,
    width: nat,
    ok: spec_fn(E) -> bool,
) -> bool {
    &&& forall|e: E| (#[trigger] enc(e)).len() == width
    &&& forall|e: E, a: Seq<u8>, b: Seq<u8>|
        ok(e) ==> #[trigger] dec(a + enc(e) + b, a.len() as int) == e
}

/// Reading a table back from the bytes it was written as gives its
/// entries, where `ok` admits each of them.
pub proof fn lemma_table_round_trip_on<E>(
    es: Seq<E>,
    enc: spec_fn(E) -> Seq<u8>,
    dec: spec_fn(Seq<u8>, int) -> E,
    width: nat,
    ok: spec_fn(E) -> bool,
    pre: Seq<u8>,
    post: Seq<u8>,
)
    requires
        inverse_on(enc, dec, width, ok),
        forall|i: int| 0 <= i < es.len() ==> ok(#[trigger] es[i]),
    ensures
        concat(es, enc).len() == width * es.len(),
        table(pre + concat(es, enc) + post, pre.len() as int, width as int, es.len(), dec) == es,
    decreases es.len(),
{
    lemma_concat_len(es, enc, width);
    let s = pre + concat(es, enc) + post;
    let t = table(s, pre.len() as int, width as int, es.len(), dec);
    if es.len() > 0 {
        let init = es.drop_last();
        let last = es.last();
        assert forall|i: int| 0 <= i < init.len() implies ok(#[trigger] init[i]) by {
            assert(init[i] == es[i]);
        }
        lemma_table_round_trip_on(init, enc, dec, width, ok, pre, enc(last) + post);
        lemma_concat_len(init, enc, width);
        let a = pre + concat(init, enc);
        assert(s =~= pre + concat(init, enc) + (enc(last) + post));
        assert(s =~= a + enc(last) + post);
        assert(ok(es[es.len() - 1]));
        assert(dec(a + enc(last) + post, a.len() as int) == last);
        assert(a.len() == pre.len() + width * init.len());
        let t0 = table(s, pre.len() as int, width as int, init.len(), dec);
        assert(t0 == init);
        assert forall|i: int| 0 <= i < es.len() implies t[i] == es[i] by {
            if i < init.len() {
                assert(t[i] == t0[i]);
            }
        }
    }
    assert(t =~= es);
}

/// The four bytes of a 32-bit entry.
pub open spec fn enc_u32() -> spec_fn(u32) -> Seq<u8> {
    |e: u32| u32_be(e)
}

/// The 32-bit entry held at `p[i..i + 4]`.
pub open spec fn dec_u32() -> spec_fn(Seq<u8>, int) -> u32 {
    |p: Seq<u8>, i: int| be_u32(p, i)
}

/// A 32-bit entry reads back as it was written.
pub proof fn lemma_inverse_u32()
    ensures
        inverse(enc_u32(), dec_u32(), 4),
{
    let enc = enc_u32();
    let dec = dec_u32();
    assert forall|e: u32, a: Seq<u8>, b: Seq<u8>| #[trigger]
        dec(a + enc(e) + b, a.len() as int) == e by {
        lemma_u32_round_trip(e, a, b);
    }
    assert forall|e: u32| (#[trigger] enc(e)).len() == 4 by {
        lemma_u32_round_trip(e, Seq::empty(), Seq::empty());
    }
}

} // verus!
