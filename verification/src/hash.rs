//! Hashes of text, by which a change of content is noticed.
use crate::text::{lemma_until_bounds, lines, split_lines, strip_cr, texts, until};
use std::collections::hash_map::DefaultHasher;
use std::hash::Hasher;
use vstd::bytes::{spec_u64_to_le_bytes, u64_to_le_bytes};
use vstd::prelude::*;
use vstd::std_specs::hash::DefaultHasherAdditionalSpecFns;
use vstd::utf8::{encode_utf8, encode_utf8_decode_utf8};

verus! {

/// The byte behind each text. It occurs in no UTF-8 text, so that no two lists of texts feed a
/// hasher the same bytes.
pub const TEXT_END: u8 = 0xff;

/// What a hasher is fed for a text: its bytes, and the byte that ends it.
pub open spec fn text_feed(text: Seq<char>) -> Seq<Seq<u8>> {
    seq![encode_utf8(text), seq![TEXT_END]]
}

/// What a hasher is fed for texts one after another.
pub open spec fn texts_feed(list: Seq<Seq<char>>) -> Seq<Seq<u8>>
    decreases list.len(),
{
    if list.len() == 0 {
        Seq::empty()
    } else {
        texts_feed(list.drop_last()) + text_feed(list.last())
    }
}

/// What a hasher is fed for a list of texts: how many there are, and each of them.
pub open spec fn list_feed(list: Seq<Seq<char>>) -> Seq<Seq<u8>> {
    seq![spec_u64_to_le_bytes(list.len() as u64)] + texts_feed(list)
}

/// The hash of a text.
pub open spec fn text_hash(text: Seq<char>) -> u64 {
    DefaultHasher::spec_finish(text_feed(text))
}

/// The hash of a list of texts.
pub open spec fn list_hash(list: Seq<Seq<char>>) -> u64 {
    DefaultHasher::spec_finish(list_feed(list))
}

/// The last `count` lines of `buffer`, or all where there are fewer, from the last to the first.
pub open spec fn last_lines(buffer: Seq<char>, count: nat) -> Seq<Seq<char>> {
    let all = lines(buffer).reverse();
    if count < all.len() {
        all.take(count as int)
    } else {
        all
    }
}

/// Feeds `text` to the hasher.
fn feed_text(hasher: &mut DefaultHasher, text: &str)
    ensures
        final(hasher)@ == old(hasher)@ + text_feed(text@),
{
    hasher.write(text.as_bytes());
    let end: [u8; 1] = [TEXT_END];
    hasher.write(&end);
    assert(end@ =~= seq![TEXT_END]);
    assert(hasher@ =~= old(hasher)@ + text_feed(text@));
}

/// The hash of `s`.
pub fn hash_str(s: &str) -> (res: u64)
    ensures
        res == text_hash(s@),
{
    let mut hasher = DefaultHasher::new();
    feed_text(&mut hasher, s);
    assert(hasher@ =~= text_feed(s@));
    hasher.finish()
}

/// The hash of the last `hash_lines` lines of `buffer`.
pub fn hash_buffer(buffer: &str, hash_lines: usize) -> (res: u64)
    ensures
        res == list_hash(last_lines(buffer@, hash_lines as nat)),
{
    let all = split_lines(buffer);
    let count: usize = if hash_lines < all.len() {
        hash_lines
    } else {
        all.len()
    };
    let ghost list = last_lines(buffer@, hash_lines as nat);
    assert(texts(all@) == lines(buffer@));
    let mut hasher = DefaultHasher::new();
    hasher.write(u64_to_le_bytes(count as u64).as_slice());
    let mut i: usize = 0;
    assert(hasher@ =~= seq![spec_u64_to_le_bytes(count as u64)] + texts_feed(list.take(0)));
    while i < count
        invariant
            i <= count <= all@.len(),
            list.len() == count,
            forall|j: int| 0 <= j < count ==> #[trigger] list[j] == all@[all@.len() - 1 - j]@,
            hasher@ == seq![spec_u64_to_le_bytes(count as u64)] + texts_feed(list.take(i as int)),
        decreases count - i,
    {
        feed_text(&mut hasher, all[all.len() - 1 - i].as_str());
        assert(list.take(i + 1).drop_last() =~= list.take(i as int));
        assert(hasher@ =~= seq![spec_u64_to_le_bytes(count as u64)] + texts_feed(
            list.take(i + 1),
        ));
        i = i + 1;
    }
    assert(list.take(count as int) =~= list);
    hasher.finish()
}

proof fn lemma_texts_feed(list: Seq<Seq<char>>)
    ensures
        texts_feed(list).len() == 2 * list.len(),
        forall|i: int|
            0 <= i < list.len() ==> texts_feed(list)[2 * i] == encode_utf8(#[trigger] list[i]),
    decreases list.len(),
{
    if list.len() > 0 {
        let front = list.drop_last();
        lemma_texts_feed(front);
        assert forall|i: int| 0 <= i < list.len() implies texts_feed(list)[2 * i] == encode_utf8(
            #[trigger] list[i],
        ) by {
            if i < front.len() {
                assert(front[i] == list[i]);
            }
        }
    }
}

/// Content that differs is told apart by what the hasher is fed: no two texts, and no two lists
/// of texts, feed it the same.
pub proof fn law_feeds_tell_apart(a: Seq<Seq<char>>, b: Seq<Seq<char>>, x: Seq<char>, y: Seq<char>)
    ensures
        list_feed(a) == list_feed(b) ==> a == b,
        text_feed(x) == text_feed(y) ==> x == y,
{
    if list_feed(a) == list_feed(b) {
        let (fa, fb) = (texts_feed(a), texts_feed(b));
        assert(fa =~= list_feed(a).drop_first());
        assert(fb =~= list_feed(b).drop_first());
        lemma_texts_feed(a);
        lemma_texts_feed(b);
        assert forall|i: int| 0 <= i < a.len() implies a[i] == b[i] by {
            assert(fa[2 * i] == encode_utf8(a[i]));
            assert(fb[2 * i] == encode_utf8(b[i]));
            encode_utf8_decode_utf8(a[i]);
            encode_utf8_decode_utf8(b[i]);
        }
        assert(a =~= b);
    }
    if text_feed(x) == text_feed(y) {
        assert(text_feed(x)[0] == encode_utf8(x));
        assert(text_feed(y)[0] == encode_utf8(y));
        encode_utf8_decode_utf8(x);
        encode_utf8_decode_utf8(y);
    }
}

/// Text above a line break splits into lines on its own.
proof fn lemma_lines_apart(above: Seq<char>, below: Seq<char>)
    ensures
        lines(above + seq!['\n'] + below) == lines(above + seq!['\n']) + lines(below),
    decreases above.len(),
{
    let head = above + seq!['\n'];
    let whole = head + below;
    lemma_until_bounds(head, '\n');
    lemma_until_bounds(whole, '\n');
    let n = until(head, '\n') as int;
    let m = until(whole, '\n') as int;
    assert(head[above.len() as int] == '\n');
    assert(whole[n] == head[n]);
    assert(n == m) by {
        if m < n {
            assert(whole[m] == head[m]);
        }
    }
    assert(whole.take(n) =~= head.take(n));
    assert(whole.skip(n + 1) =~= head.skip(n + 1) + below);
    if n == above.len() {
        assert(head.skip(n + 1) =~= Seq::<char>::empty());
        assert(head.skip(n + 1) + below =~= below);
        assert(lines(Seq::<char>::empty()) + lines(below) =~= lines(below));
    } else {
        let rest = above.skip(n + 1);
        assert(head.skip(n + 1) =~= rest + seq!['\n']);
        lemma_lines_apart(rest, below);
    }
    assert(n < head.len() <= whole.len());
    assert(lines(head) == seq![strip_cr(head.take(n))] + lines(head.skip(n + 1)));
    assert(lines(whole) == seq![strip_cr(whole.take(n))] + lines(whole.skip(n + 1)));
    assert(lines(whole.skip(n + 1)) == lines(head.skip(n + 1)) + lines(below));
    assert(lines(whole) =~= lines(head) + lines(below));
}

/// Only the last `count` lines of a buffer decide its hash: what stands above them changes
/// nothing.
pub proof fn law_hash_ignores_what_is_above(above: Seq<char>, below: Seq<char>, count: nat)
    requires
        lines(below).len() >= count,
    ensures
        last_lines(above + seq!['\n'] + below, count) == last_lines(below, count),
        list_hash(last_lines(above + seq!['\n'] + below, count)) == list_hash(
            last_lines(below, count),
        ),
{
    lemma_lines_apart(above, below);
    assert(last_lines(above + seq!['\n'] + below, count) =~= last_lines(below, count));
}

/// What is hashed of a buffer are its last `count` lines, each of them, or all its lines where
/// there are fewer: the last line first.
pub proof fn law_each_of_the_last_lines_counts(buffer: Seq<char>, count: nat, j: int)
    ensures
        last_lines(buffer, count).len() == if count < lines(buffer).len() {
            count
        } else {
            lines(buffer).len()
        },
        0 <= j < last_lines(buffer, count).len() ==> last_lines(buffer, count)[j] == lines(
            buffer,
        )[lines(buffer).len() - 1 - j],
{
}

/// Two buffers of which the same is hashed agree on each of their last `count` lines, so that a
/// change in any of those lines changes what is hashed.
pub proof fn law_same_feed_same_last_lines(a: Seq<char>, b: Seq<char>, count: nat, j: int)
    requires
        list_feed(last_lines(a, count)) == list_feed(last_lines(b, count)),
        0 <= j < count,
        j < lines(a).len(),
    ensures
        j < lines(b).len(),
        lines(a)[lines(a).len() - 1 - j] == lines(b)[lines(b).len() - 1 - j],
{
    law_feeds_tell_apart(last_lines(a, count), last_lines(b, count), Seq::empty(), Seq::empty());
    law_each_of_the_last_lines_counts(a, count, j);
    law_each_of_the_last_lines_counts(b, count, j);
}

/// A hash is what the hasher makes of the whole of what it is fed: the UTF-8 bytes of each text,
/// each followed by a byte that occurs in none, and before a list the number of its texts.
pub proof fn law_hash_is_of_everything_fed(text: Seq<char>, list: Seq<Seq<char>>)
    ensures
        text_hash(text) == DefaultHasher::spec_finish(seq![encode_utf8(text), seq![0xffu8]]),
        list_hash(list) == DefaultHasher::spec_finish(list_feed(list)),
        list_feed(list).len() == 1 + 2 * list.len(),
        list_feed(list)[0] == spec_u64_to_le_bytes(list.len() as u64),
        forall|i: int|
            0 <= i < list.len() ==> list_feed(list)[1 + 2 * i] == encode_utf8(#[trigger] list[i])
                && list_feed(list)[2 + 2 * i] == seq![0xffu8],
    decreases list.len(),
{
    if list.len() > 0 {
        let front = list.drop_last();
        law_hash_is_of_everything_fed(text, front);
        assert forall|i: int| 0 <= i < list.len() implies list_feed(list)[1 + 2 * i]
            == encode_utf8(#[trigger] list[i]) && list_feed(list)[2 + 2 * i] == seq![0xffu8] by {
            if i < front.len() {
                assert(front[i] == list[i]);
                assert(list_feed(front)[1 + 2 * i] == texts_feed(front)[2 * i]);
                assert(list_feed(front)[2 + 2 * i] == texts_feed(front)[2 * i + 1]);
            }
        }
    }
}

} // verus!
