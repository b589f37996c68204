//! Sequences of values. The nested form is the number of items in four
//! bytes, then the items in nested form; the top-level form is the items
//! alone, and the payload's end is the sequence's end.
use vstd::prelude::*;
use crate::api::{
    agree_outside, extends, lemma_agree_on_subset, lemma_agree_outside_on,
    lemma_agree_outside_transitive, lemma_extends_agree_on, lemma_extends_transitive, none_live,
    Handle, ManagedTypeApi, Store,
};
use crate::codec::bytes::{read_length, write_length};
use crate::codec::error::{DecodeError, EncodeError};
use crate::codec::format::{NestedDecode, NestedEncode, TopDecode, TopEncode, WireFormat};
use crate::codec::input::{NestedDecodeInput, SliceInput};
use crate::codec::integers::{fixed_parse, lemma_fixed_round_trip};
use crate::codec::output::NestedEncodeOutput;
use crate::magnitude::{be_fixed, lemma_be_fixed_len, lemma_pow256_widths};

verus! {

/// The nested forms of `values`, one after the other.
pub open spec fn concat_forms<T: WireFormat>(values: Seq<T::Value>) -> Seq<u8>
    decreases values.len(),
{
    if values.len() == 0 {
        Seq::empty()
    } else {
        concat_forms::<T>(values.drop_last()) + T::nested_form(values.last())
    }
}

/// Every one of `values` has a nested form.
pub open spec fn all_fit<T: WireFormat>(values: Seq<T::Value>) -> bool {
    forall|i: int| 0 <= i < values.len() ==> T::nested_fits(#[trigger] values[i])
}

/// What was read so far, followed by what reading the rest gives.
pub open spec fn joined<V>(
    done: Seq<V>,
    taken: int,
    rest: Result<(Seq<V>, int), DecodeError>,
) -> Result<(Seq<V>, int), DecodeError> {
    match rest {
        Err(error) => Err(error),
        Ok((values, more)) => Ok((done + values, taken + more)),
    }
}

/// Reads `count` values in nested form from the front of `input`.
pub open spec fn parse_count<T: WireFormat>(input: Seq<u8>, count: nat) -> Result<
    (Seq<T::Value>, int),
    DecodeError,
>
    decreases count,
{
    if count == 0 {
        Ok((Seq::empty(), 0))
    } else {
        match T::nested_parse(input) {
            Err(error) => Err(error),
            Ok((first, taken)) => joined(
                seq![first],
                taken,
                parse_count::<T>(input.skip(taken), (count - 1) as nat),
            ),
        }
    }
}

/// Reads values in nested form from `input` until nothing is left.
pub open spec fn parse_all<T: WireFormat>(input: Seq<u8>) -> Result<(Seq<T::Value>, int), DecodeError>
    decreases input.len(),
{
    if input.len() == 0 {
        Ok((Seq::empty(), 0))
    } else {
        match T::nested_parse(input) {
            Err(error) => Err(error),
            Ok((first, taken)) => if 0 < taken <= input.len() {
                joined(seq![first], taken, parse_all::<T>(input.skip(taken)))
            } else {
                Err(DecodeError::InvalidValue)
            },
        }
    }
}

/// The values alone, of what reading gave.
pub open spec fn values_of<V>(parsed: Result<(Seq<V>, int), DecodeError>) -> Result<
    Seq<V>,
    DecodeError,
> {
    match parsed {
        Err(error) => Err(error),
        Ok((values, _)) => Ok(values),
    }
}

/// The forms of a sequence with one more value in front.
pub proof fn lemma_concat_forms_first<T: WireFormat>(first: T::Value, rest: Seq<T::Value>)
    ensures
        concat_forms::<T>(seq![first] + rest) == T::nested_form(first) + concat_forms::<T>(rest),
    decreases rest.len(),
{
    let all = seq![first] + rest;
    assert(all.len() == rest.len() + 1);
    if rest.len() == 0 {
        assert(all.drop_last() =~= rest);
        assert(all.last() == first);
        assert(concat_forms::<T>(rest) =~= Seq::<u8>::empty());
        assert(concat_forms::<T>(all) =~= T::nested_form(first) + concat_forms::<T>(rest));
    } else {
        assert(all.drop_last() =~= seq![first] + rest.drop_last());
        assert(all.last() == rest.last());
        lemma_concat_forms_first::<T>(first, rest.drop_last());
        assert(concat_forms::<T>(all) =~= T::nested_form(first) + concat_forms::<T>(rest));
    }
}

/// Reading the forms of `values` gives `values` back, by count.
pub proof fn lemma_parse_count_round_trip<T: WireFormat>(values: Seq<T::Value>, rest: Seq<u8>)
    requires
        all_fit::<T>(values),
    ensures
        parse_count::<T>(concat_forms::<T>(values) + rest, values.len()) == Ok::<_, DecodeError>(
            (values, concat_forms::<T>(values).len() as int),
        ),
    decreases values.len(),
{
    if values.len() == 0 {
        assert(values =~= Seq::<T::Value>::empty());
        assert(concat_forms::<T>(values) =~= Seq::<u8>::empty());
    } else {
        let first = values[0];
        let tail = values.drop_first();
        assert(values =~= seq![first] + tail);
        lemma_concat_forms_first::<T>(first, tail);
        let head_form = T::nested_form(first);
        let tail_form = concat_forms::<T>(tail);
        assert(T::nested_fits(values[0]));
        T::lemma_nested_round_trip(first, tail_form + rest);
        let input = concat_forms::<T>(values) + rest;
        assert(input =~= head_form + (tail_form + rest));
        assert(input.skip(head_form.len() as int) =~= tail_form + rest);
        assert(tail.len() == values.len() - 1);
        assert forall|i: int| 0 <= i < tail.len() implies T::nested_fits(#[trigger] tail[i]) by {
            assert(tail[i] == values[i + 1]);
        }
        lemma_parse_count_round_trip::<T>(tail, rest);
        assert(T::nested_parse(input) == Ok::<_, DecodeError>((first, head_form.len() as int)));
        assert(parse_count::<T>(input.skip(head_form.len() as int), (values.len() - 1) as nat)
            == Ok::<_, DecodeError>((tail, tail_form.len() as int)));
        assert(concat_forms::<T>(values).len() == head_form.len() + tail_form.len());
    }
}

/// Reading the forms of `values` gives `values` back, to the end of the
/// input.
pub proof fn lemma_parse_all_round_trip<T: WireFormat>(values: Seq<T::Value>)
    requires
        all_fit::<T>(values),
    ensures
        parse_all::<T>(concat_forms::<T>(values)) == Ok::<_, DecodeError>(
            (values, concat_forms::<T>(values).len() as int),
        ),
    decreases values.len(),
{
    if values.len() == 0 {
        assert(values =~= Seq::<T::Value>::empty());
        assert(concat_forms::<T>(values) =~= Seq::<u8>::empty());
    } else {
        let first = values[0];
        let tail = values.drop_first();
        assert(values =~= seq![first] + tail);
        lemma_concat_forms_first::<T>(first, tail);
        let head_form = T::nested_form(first);
        let tail_form = concat_forms::<T>(tail);
        assert(T::nested_fits(values[0]));
        T::lemma_nested_round_trip(first, tail_form);
        let input = concat_forms::<T>(values);
        assert(input =~= head_form + tail_form);
        T::lemma_nested_parse_consumes(input);
        assert(input.skip(head_form.len() as int) =~= tail_form);
        assert(tail.len() == values.len() - 1);
        assert forall|i: int| 0 <= i < tail.len() implies T::nested_fits(#[trigger] tail[i]) by {
            assert(tail[i] == values[i + 1]);
        }
        lemma_parse_all_round_trip::<T>(tail);
        assert(T::nested_parse(input) == Ok::<_, DecodeError>((first, head_form.len() as int)));
        assert(input.len() > 0);
    }
}

/// Reading by count takes bytes that are there.
pub proof fn lemma_parse_count_consumes<T: WireFormat>(input: Seq<u8>, count: nat)
    ensures
        parse_count::<T>(input, count) matches Ok((values, taken)) ==> 0 <= taken <= input.len()
            && values.len() == count,
    decreases count,
{
    if count > 0 {
        T::lemma_nested_parse_consumes(input);
        if let Ok((_, taken)) = T::nested_parse(input) {
            lemma_parse_count_consumes::<T>(input.skip(taken), (count - 1) as nat);
        }
    }
}

/// Reading to the end takes the whole input.
pub proof fn lemma_parse_all_consumes<T: WireFormat>(input: Seq<u8>)
    ensures
        parse_all::<T>(input) matches Ok((_, taken)) ==> taken == input.len(),
    decreases input.len(),
{
    if input.len() > 0 {
        if let Ok((_, taken)) = T::nested_parse(input) {
            if 0 < taken <= input.len() {
                lemma_parse_all_consumes::<T>(input.skip(taken));
            }
        }
    }
}

impl<T: WireFormat> WireFormat for Vec<T> {
    type Value = Seq<T::Value>;

    open spec fn handles(&self) -> Set<Handle> {
        Set::new(|h: Handle| exists|i: int| 0 <= i < self@.len() && #[trigger] self@[i].handles().contains(h))
    }

    open spec fn valid(&self, store: Store) -> bool {
        forall|i: int| 0 <= i < self@.len() ==> (#[trigger] self@[i]).valid(store)
    }

    open spec fn value(&self, store: Store) -> Seq<T::Value> {
        Seq::new(self@.len(), |i: int| self@[i].value(store))
    }

    open spec fn nested_fits(value: Seq<T::Value>) -> bool {
        value.len() <= u32::MAX && all_fit::<T>(value)
    }

    open spec fn nested_form(value: Seq<T::Value>) -> Seq<u8> {
        be_fixed(value.len(), 4) + concat_forms::<T>(value)
    }

    open spec fn nested_parse(input: Seq<u8>) -> Result<(Seq<T::Value>, int), DecodeError> {
        match fixed_parse(input, 4) {
            Err(error) => Err(error),
            Ok((count, _)) => joined(Seq::empty(), 4, parse_count::<T>(input.skip(4), count)),
        }
    }

    open spec fn top_fits(value: Seq<T::Value>) -> bool {
        all_fit::<T>(value)
    }

    open spec fn top_form(value: Seq<T::Value>) -> Seq<u8> {
        concat_forms::<T>(value)
    }

    open spec fn top_parse(input: Seq<u8>) -> Result<Seq<T::Value>, DecodeError> {
        values_of(parse_all::<T>(input))
    }

    proof fn lemma_stable(&self, before: Store, after: Store) {
        assert forall|i: int| 0 <= i < self@.len() implies (#[trigger] self@[i]).valid(after)
            && self@[i].value(after) == self@[i].value(before) by {
            assert(self@[i].handles().subset_of(self.handles()));
            lemma_agree_on_subset(before, after, self.handles(), self@[i].handles());
            self@[i].lemma_stable(before, after);
        }
        assert(self.value(after) =~= self.value(before));
    }

    proof fn lemma_nested_parse_consumes(input: Seq<u8>) {
        if let Ok((count, _)) = fixed_parse(input, 4) {
            lemma_parse_count_consumes::<T>(input.skip(4), count);
        }
    }

    proof fn lemma_nested_round_trip(value: Seq<T::Value>, rest: Seq<u8>) {
        lemma_pow256_widths();
        lemma_be_fixed_len(value.len(), 4);
        let items = concat_forms::<T>(value);
        lemma_fixed_round_trip(value.len(), 4, items + rest);
        let whole = Self::nested_form(value) + rest;
        assert(whole =~= be_fixed(value.len(), 4) + (items + rest));
        assert(whole.skip(4) =~= items + rest);
        lemma_parse_count_round_trip::<T>(value, rest);
        assert(Seq::<T::Value>::empty() + value =~= value);
    }

    proof fn lemma_top_round_trip(value: Seq<T::Value>) {
        lemma_parse_all_round_trip::<T>(value);
    }
}

/// Appends the nested forms of the items of `items` to `dest`.
fn encode_items<T: NestedEncode, M: ManagedTypeApi, O: NestedEncodeOutput>(
    items: &Vec<T>,
    api: &mut M,
    dest: &mut O,
) -> (result: Result<(), EncodeError>)
    requires
        items.valid(old(api)@),
        old(dest).ready(old(api)@),
        items.handles().disjoint(old(dest).owned()),
    ensures
        final(dest).ready(final(api)@),
        final(dest).owned() == old(dest).owned(),
        agree_outside(old(api)@, final(api)@, old(dest).owned()),
        result is Ok <==> all_fit::<T>(items.value(old(api)@)),
        result is Ok ==> final(dest).written(final(api)@) == old(dest).written(old(api)@)
            + concat_forms::<T>(items.value(old(api)@)),
{
    let ghost values = items.value(old(api)@);
    let mut i: usize = 0;
    assert(values.take(0) =~= Seq::<T::Value>::empty());
    assert(old(dest).written(old(api)@) + Seq::<u8>::empty() =~= old(dest).written(old(api)@));
    assert(old(api)@.dom() =~= api@.dom());
    while i < items.len()
        invariant
            i <= items.len(),
            values == items.value(old(api)@),
            values.len() == items@.len(),
            items.valid(old(api)@),
            items.handles().disjoint(dest.owned()),
            dest.ready(api@),
            dest.owned() == old(dest).owned(),
            agree_outside(old(api)@, api@, dest.owned()),
            all_fit::<T>(values.take(i as int)),
            dest.written(api@) == old(dest).written(old(api)@) + concat_forms::<T>(
                values.take(i as int),
            ),
        decreases items.len() - i,
    {
        let item = &items[i];
        let ghost middle = api@;
        proof {
            assert(items@[i as int].valid(old(api)@));
            assert(items@[i as int].handles().subset_of(items.handles()));
            lemma_agree_outside_on(old(api)@, middle, dest.owned(), item.handles());
            item.lemma_stable(old(api)@, middle);
            assert(item.value(middle) == values[i as int]);
        }
        match item.dep_encode(api, dest) {
            Ok(()) => {},
            Err(error) => {
                proof {
                    lemma_agree_outside_transitive(old(api)@, middle, api@, dest.owned());
                    assert(!T::nested_fits(values[i as int]));
                }
                return Err(error);
            },
        }
        proof {
            lemma_agree_outside_transitive(old(api)@, middle, api@, dest.owned());
            let next = values.take(i + 1);
            assert(next.drop_last() =~= values.take(i as int));
            assert(next.last() == values[i as int]);
            assert forall|j: int| 0 <= j < next.len() implies T::nested_fits(#[trigger] next[j]) by {
                if j < i {
                    assert(next[j] == values.take(i as int)[j]);
                }
            }
            assert(dest.written(api@) =~= old(dest).written(old(api)@) + concat_forms::<T>(next));
        }
        i += 1;
    }
    assert(values.take(i as int) =~= values);
    Ok(())
}

impl<T: NestedEncode> NestedEncode for Vec<T> {
    fn dep_encode<M: ManagedTypeApi, O: NestedEncodeOutput>(
        &self,
        api: &mut M,
        dest: &mut O,
    ) -> (result: Result<(), EncodeError>) {
        match write_length(api, dest, self.len()) {
            Ok(()) => {},
            Err(error) => {
                return Err(error);
            },
        }
        let ghost middle = api@;
        proof {
            lemma_agree_outside_on(old(api)@, middle, dest.owned(), self.handles());
            self.lemma_stable(old(api)@, middle);
        }
        let result = encode_items(self, api, dest);
        proof {
            lemma_agree_outside_transitive(old(api)@, middle, api@, dest.owned());
            if result is Ok {
                assert(dest.written(api@) =~= old(dest).written(old(api)@) + Self::nested_form(
                    self.value(old(api)@),
                ));
            }
        }
        result
    }
}

impl<T: NestedEncode> TopEncode for Vec<T> {
    fn top_encode<M: ManagedTypeApi, O: NestedEncodeOutput>(
        &self,
        api: &mut M,
        dest: &mut O,
    ) -> (result: Result<(), EncodeError>) {
        encode_items(self, api, dest)
    }
}

/// Reading one more value after `done` is reading it together with `done`.
pub proof fn lemma_joined_step<V>(
    done: Seq<V>,
    taken: int,
    next: V,
    more: int,
    rest: Result<(Seq<V>, int), DecodeError>,
)
    ensures
        joined(done, taken, joined(seq![next], more, rest)) == joined(
            done.push(next),
            taken + more,
            rest,
        ),
{
    if let Ok((values, _)) = rest {
        assert(done + (seq![next] + values) =~= done.push(next) + values);
    }
}

/// The items read so far stay what they are when the registry gains handles.
proof fn lemma_items_stable<T: WireFormat>(items: Vec<T>, before: Store, after: Store)
    requires
        items.valid(before),
        extends(before, after),
    ensures
        items.valid(after),
        items.value(after) == items.value(before),
{
    lemma_extends_agree_on(before, after, items.handles());
    items.lemma_stable(before, after);
}

/// The handles of one more item, which were not live when reading began,
/// leave the handles of all items so.
proof fn lemma_items_fresh<T: WireFormat>(
    items: Seq<T>,
    item: T,
    start: Store,
    middle: Store,
)
    requires
        forall|j: int| 0 <= j < items.len() ==> none_live((#[trigger] items[j]).handles(), start),
        none_live(item.handles(), middle),
        extends(start, middle),
    ensures
        forall|j: int|
            0 <= j < items.push(item).len() ==> none_live(
                (#[trigger] items.push(item)[j]).handles(),
                start,
            ),
{
    assert forall|h: Handle| #[trigger] item.handles().contains(h) implies !start.contains_key(
        h,
    ) by {
        if start.contains_key(h) {
            assert(middle.contains_key(h));
        }
    }
    assert forall|j: int| 0 <= j < items.push(item).len() implies none_live(
        (#[trigger] items.push(item)[j]).handles(),
        start,
    ) by {
        if j < items.len() {
            assert(items.push(item)[j] == items[j]);
        }
    }
}

/// Reads `count` values in nested form from the front of `input`.
fn decode_count<T: NestedDecode, M: ManagedTypeApi, I: NestedDecodeInput>(
    api: &mut M,
    input: &mut I,
    count: usize,
) -> (result: Result<Vec<T>, DecodeError>)
    ensures
        extends(old(api)@, final(api)@),
        match result {
            Ok(items) => {
                &&& items.valid(final(api)@)
                &&& none_live(items.handles(), old(api)@)
                &&& parse_count::<T>(old(input).remaining(), count as nat) matches Ok(
                    (values, taken),
                ) && values == items.value(final(api)@) && final(input).remaining() == old(
                    input,
                ).remaining().skip(taken)
            },
            Err(error) => parse_count::<T>(old(input).remaining(), count as nat) matches Err(e)
                && e == error,
        },
{
    let ghost whole = input.remaining();
    let ghost mut taken: int = 0;
    let mut items: Vec<T> = Vec::new();
    let mut i: usize = 0;
    proof {
        assert(whole.skip(0) =~= whole);
        assert(items.value(api@) =~= Seq::<T::Value>::empty());
        let rest = parse_count::<T>(whole, count as nat);
        if let Ok((values, _)) = rest {
            assert(Seq::<T::Value>::empty() + values =~= values);
        }
    }
    while i < count
        invariant
            i <= count,
            items@.len() == i,
            whole == old(input).remaining(),
            extends(old(api)@, api@),
            items.valid(api@),
            forall|j: int|
                0 <= j < items@.len() ==> none_live((#[trigger] items@[j]).handles(), old(api)@),
            0 <= taken <= whole.len(),
            input.remaining() == whole.skip(taken),
            parse_count::<T>(whole, count as nat) == joined(
                items.value(api@),
                taken,
                parse_count::<T>(input.remaining(), (count - i) as nat),
            ),
        decreases count - i,
    {
        let ghost middle = api@;
        let ghost before = input.remaining();
        let ghost done = items.value(middle);
        let item = match T::dep_decode(api, input) {
            Ok(item) => item,
            Err(error) => {
                proof {
                    lemma_extends_transitive(old(api)@, middle, api@);
                }
                return Err(error);
            },
        };
        proof {
            lemma_items_fresh::<T>(items@, item, old(api)@, middle);
            lemma_extends_transitive(old(api)@, middle, api@);
            lemma_items_stable::<T>(items, middle, api@);
            T::lemma_nested_parse_consumes(before);
            let more = T::nested_parse(before)->Ok_0.1;
            let next = item.value(api@);
            lemma_joined_step(
                done,
                taken,
                next,
                more,
                parse_count::<T>(before.skip(more), (count - i - 1) as nat),
            );
            assert(whole.skip(taken).skip(more) =~= whole.skip(taken + more));
            taken = taken + more;
        }
        items.push(item);
        proof {
            assert(items.value(api@) =~= done.push(item.value(api@)));
        }
        i += 1;
    }
    proof {
        assert(items.value(api@) + Seq::<T::Value>::empty() =~= items.value(api@));
    }
    Ok(items)
}

impl<T: NestedDecode> NestedDecode for Vec<T> {
    fn dep_decode<M: ManagedTypeApi, I: NestedDecodeInput>(api: &mut M, input: &mut I) -> (result:
        Result<Self, DecodeError>) {
        let count = match read_length(input) {
            Ok(count) => count,
            Err(error) => {
                return Err(error);
            },
        };
        let ghost whole = old(input).remaining();
        match decode_count::<T, M, I>(api, input, count) {
            Ok(items) => {
                proof {
                    let taken = parse_count::<T>(whole.skip(4), count as nat)->Ok_0.1;
                    lemma_parse_count_consumes::<T>(whole.skip(4), count as nat);
                    assert(whole.skip(4).skip(taken) =~= whole.skip(4 + taken));
                    assert(Seq::<T::Value>::empty() + items.value(api@) =~= items.value(api@));
                }
                Ok(items)
            },
            Err(error) => Err(error),
        }
    }
}

impl<T: NestedDecode> TopDecode for Vec<T> {
    fn top_decode<M: ManagedTypeApi>(api: &mut M, input: &[u8]) -> (result: Result<
        Self,
        DecodeError,
    >) {
        let mut cursor = SliceInput::new(input);
        let ghost whole = input@;
        let ghost mut taken: int = 0;
        let mut items: Vec<T> = Vec::new();
        proof {
            assert(whole.skip(0) =~= whole);
            assert(items.value(api@) =~= Seq::<T::Value>::empty());
            if let Ok((values, _)) = parse_all::<T>(whole) {
                assert(Seq::<T::Value>::empty() + values =~= values);
            }
        }
        while cursor.remaining_len() > 0
            invariant
                whole == input@,
                extends(old(api)@, api@),
                items.valid(api@),
                forall|j: int|
                    0 <= j < items@.len() ==> none_live(
                        (#[trigger] items@[j]).handles(),
                        old(api)@,
                    ),
                0 <= taken <= whole.len(),
                cursor.remaining() == whole.skip(taken),
                parse_all::<T>(whole) == joined(
                    items.value(api@),
                    taken,
                    parse_all::<T>(cursor.remaining()),
                ),
            decreases cursor.remaining().len(),
        {
            let ghost middle = api@;
            let ghost before = cursor.remaining();
            let ghost done = items.value(middle);
            let item = match T::dep_decode(api, &mut cursor) {
                Ok(item) => item,
                Err(error) => {
                    proof {
                        lemma_extends_transitive(old(api)@, middle, api@);
                    }
                    return Err(error);
                },
            };
            proof {
                lemma_items_fresh::<T>(items@, item, old(api)@, middle);
                lemma_extends_transitive(old(api)@, middle, api@);
                lemma_items_stable::<T>(items, middle, api@);
                T::lemma_nested_parse_consumes(before);
                let more = T::nested_parse(before)->Ok_0.1;
                let next = item.value(api@);
                lemma_joined_step(done, taken, next, more, parse_all::<T>(before.skip(more)));
                assert(whole.skip(taken).skip(more) =~= whole.skip(taken + more));
                taken = taken + more;
            }
            items.push(item);
            proof {
                assert(items.value(api@) =~= done.push(item.value(api@)));
            }
        }
        proof {
            assert(items.value(api@) + Seq::<T::Value>::empty() =~= items.value(api@));
        }
        Ok(items)
    }
}

} // verus!
