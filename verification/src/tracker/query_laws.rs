//! Reading undoes writing: the text that is written for a query string
//! reads back as the same query string.

use vstd::prelude::*;
use crate::bencode::entries::{all_values, lemma_with_entry_last};
use crate::bencode::value::{bytes_lt, keys_ascending, Value};
use crate::tracker::query_string::{
    escaped, escaped_byte, is_bytes, lemma_unescape_escaped, position, query_entries, query_text,
    AMPERSAND, EQUALS,
};

verus! {

/// No byte of `s` is `b`.
pub open spec fn free_of(s: Seq<u8>, b: u8) -> bool {
    forall|i: int| 0 <= i < s.len() ==> #[trigger] s[i] != b
}

/// In a text without `b` the place of the first `b` behind it counts on
/// from its end.
pub proof fn lemma_position_behind(head: Seq<u8>, tail: Seq<u8>, b: u8)
    requires
        free_of(head, b),
    ensures
        position(head + tail, b) == head.len() + position(tail, b),
    decreases head.len(),
{
    let all = head + tail;
    if head.len() == 0 {
        assert(all =~= tail);
    } else {
        assert(all[0] == head[0]);
        assert(all.drop_first() =~= head.drop_first() + tail);
        assert forall|i: int| 0 <= i < head.drop_first().len() implies (
        #[trigger] head.drop_first()[i]) != b by {
            assert(head.drop_first()[i] == head[i + 1]);
        }
        lemma_position_behind(head.drop_first(), tail, b);
    }
}

/// A text without `b` has no first `b`.
pub proof fn lemma_position_none(s: Seq<u8>, b: u8)
    requires
        free_of(s, b),
    ensures
        position(s, b) == s.len(),
{
    lemma_position_behind(s, Seq::empty(), b);
    assert(s + Seq::<u8>::empty() =~= s);
}

/// A percent-encoded text holds neither `&` nor `=`.
pub proof fn lemma_escaped_free(s: Seq<u8>)
    ensures
        free_of(escaped(s), AMPERSAND),
        free_of(escaped(s), EQUALS),
    decreases s.len(),
{
    if s.len() > 0 {
        lemma_escaped_free(s.drop_first());
        let first = escaped_byte(s[0]);
        let rest = escaped(s.drop_first());
        assert forall|i: int| 0 <= i < escaped(s).len() implies #[trigger] escaped(s)[i]
            != AMPERSAND && escaped(s)[i] != EQUALS by {
            if i >= first.len() {
                assert(escaped(s)[i] == rest[i - first.len()]);
            } else {
                assert(escaped(s)[i] == first[i]);
            }
        }
    }
}

/// The text of one pair.
pub open spec fn pair_text(pair: (Seq<u8>, Value)) -> Seq<u8> {
    escaped(pair.0) + seq![EQUALS] + escaped(
        match pair.1 {
            Value::Bytes(value) => value,
            _ => Seq::empty(),
        },
    )
}

/// The text of pairs begins with the text of the first pair; the text of
/// the others follows behind an `&`.
pub proof fn lemma_query_text_front(pairs: Seq<(Seq<u8>, Value)>)
    requires
        pairs.len() > 0,
    ensures
        query_text(pairs) == if pairs.len() == 1 {
            pair_text(pairs[0])
        } else {
            pair_text(pairs[0]) + seq![AMPERSAND] + query_text(pairs.drop_first())
        },
    decreases pairs.len(),
{
    if pairs.len() == 1 {
    } else {
        let front = pairs.drop_last();
        lemma_query_text_front(front);
        assert(front[0] == pairs[0]);
        let rest = pairs.drop_first();
        assert(rest.last() == pairs.last());
        if pairs.len() == 2 {
            assert(rest.len() == 1);
            assert(query_text(pairs) =~= pair_text(pairs[0]) + seq![AMPERSAND] + query_text(rest));
        } else {
            assert(rest.drop_last() =~= front.drop_first());
            assert(query_text(pairs) =~= pair_text(pairs[0]) + seq![AMPERSAND] + query_text(rest));
        }
    }
}

/// Reading the text of pairs adds the pairs to what was read before.
proof fn lemma_query_back(pairs: Seq<(Seq<u8>, Value)>, acc: Seq<(Seq<u8>, Value)>)
    requires
        pairs.len() > 0,
        keys_ascending(acc + pairs),
        all_values(pairs, |v: Value| is_bytes(v)),
    ensures
        query_entries(query_text(pairs), acc) == Some(acc + pairs),
    decreases pairs.len(),
{
    let text = query_text(pairs);
    let key = pairs[0].0;
    assert(is_bytes(pairs[0].1));
    let value = pairs[0].1->Bytes_0;
    let item = pair_text(pairs[0]);
    lemma_query_text_front(pairs);
    lemma_escaped_free(key);
    lemma_escaped_free(value);
    // the pair ends at the first `&`, or at the end of the text
    assert(free_of(item, AMPERSAND)) by {
        assert forall|i: int| 0 <= i < item.len() implies #[trigger] item[i] != AMPERSAND by {
            if i < escaped(key).len() {
                assert(item[i] == escaped(key)[i]);
            } else if i > escaped(key).len() {
                assert(item[i] == escaped(value)[i - escaped(key).len() - 1]);
            }
        }
    }
    let rest = pairs.drop_first();
    let tail = if pairs.len() == 1 {
        Seq::<u8>::empty()
    } else {
        seq![AMPERSAND] + query_text(rest)
    };
    assert(text =~= item + tail);
    lemma_position_behind(item, tail, AMPERSAND);
    let end = position(text, AMPERSAND);
    assert(end == item.len());
    assert(text.take(end as int) =~= item);
    // the key ends at the first `=`
    let behind = seq![EQUALS] + escaped(value);
    assert(item =~= escaped(key) + behind);
    lemma_position_behind(escaped(key), behind, EQUALS);
    let middle = position(item, EQUALS);
    assert(middle == escaped(key).len());
    assert(item.take(middle as int) =~= escaped(key));
    assert(item.skip(middle as int + 1) =~= escaped(value));
    lemma_unescape_escaped(key);
    lemma_unescape_escaped(value);
    // the pair goes to the end of what was read before
    let all = acc + pairs;
    assert(all[acc.len() as int] == pairs[0]);
    if acc.len() > 0 {
        assert(all[acc.len() - 1] == acc.last());
        assert(bytes_lt(all[acc.len() - 1].0, all[acc.len() as int].0));
    }
    lemma_with_entry_last(acc, key, Value::Bytes(value));
    assert(pairs[0] == (key, Value::Bytes(value)));
    let bound = acc.push(pairs[0]);
    if pairs.len() == 1 {
        assert(bound =~= acc + pairs);
    } else {
        assert(text.skip(end as int + 1) =~= query_text(rest));
        assert(bound + rest =~= acc + pairs);
        assert forall|i: int| 0 <= i < rest.len() implies is_bytes(#[trigger] rest[i].1) by {
            assert(rest[i] == pairs[i + 1]);
            assert(is_bytes(pairs[i + 1].1));
        }
        lemma_query_back(rest, bound);
    }
}

/// The text that is written for a query string with at least one pair reads
/// back as the same pairs.
pub proof fn lemma_query_round_trip(pairs: Seq<(Seq<u8>, Value)>)
    requires
        pairs.len() > 0,
        keys_ascending(pairs),
        all_values(pairs, |v: Value| is_bytes(v)),
    ensures
        query_entries(query_text(pairs), Seq::empty()) == Some(pairs),
{
    assert(Seq::<(Seq<u8>, Value)>::empty() + pairs =~= pairs);
    lemma_query_back(pairs, Seq::empty());
}

} // verus!
