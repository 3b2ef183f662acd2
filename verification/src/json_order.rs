//! JSON objects in the order of two of their fields.

use crate::comparison::text_at;
use crate::disposition::{
    compare_parts, part_before, part_order_is_total, part_order_is_transitive,
};
use crate::event::opt_str;
use crate::json::{field_of, item_models, Json, JsonModel};
use crate::text::TextOrder;
use vstd::prelude::*;

verus! {

/// Whether an object comes before another: the first field decides, then the second. A missing
/// text comes first.
pub open spec fn object_before(
    a: JsonModel,
    b: JsonModel,
    first: Seq<char>,
    second: Seq<char>,
) -> bool {
    let (a1, b1) = (text_at(field_of(a, first)), text_at(field_of(b, first)));
    part_before(a1, b1) || (a1 == b1 && part_before(
        text_at(field_of(a, second)),
        text_at(field_of(b, second)),
    ))
}

/// The first place of a list whose object does not come before the given one.
pub open spec fn place_of(
    list: Seq<JsonModel>,
    object: JsonModel,
    first: Seq<char>,
    second: Seq<char>,
) -> int
    decreases list.len(),
{
    if list.len() == 0 || !object_before(list[0], object, first, second) {
        0
    } else {
        1 + place_of(list.skip(1), object, first, second)
    }
}

/// Objects in order; those that are equal in order stay as they were.
pub open spec fn in_field_order(objects: Seq<JsonModel>, first: Seq<char>, second: Seq<char>) -> Seq<
    JsonModel,
>
    decreases objects.len(),
{
    if objects.len() == 0 {
        seq![]
    } else {
        let rest = in_field_order(objects.skip(1), first, second);
        rest.insert(place_of(rest, objects[0], first, second), objects[0])
    }
}

/// Whether no object comes before an earlier one.
pub open spec fn is_ordered(list: Seq<JsonModel>, first: Seq<char>, second: Seq<char>) -> bool {
    forall|i: int, j: int|
        0 <= i < j < list.len() ==> !object_before(
            #[trigger] list[j],
            #[trigger] list[i],
            first,
            second,
        )
}

proof fn lemma_not_before_transitive(
    a: JsonModel,
    b: JsonModel,
    c: JsonModel,
    first: Seq<char>,
    second: Seq<char>,
)
    requires
        object_before(c, a, first, second),
        !object_before(b, a, first, second),
    ensures
        object_before(c, b, first, second),
{
    let (a1, a2) = (text_at(field_of(a, first)), text_at(field_of(a, second)));
    let (b1, b2) = (text_at(field_of(b, first)), text_at(field_of(b, second)));
    let (c1, c2) = (text_at(field_of(c, first)), text_at(field_of(c, second)));
    part_order_is_total(a1, b1);
    part_order_is_total(a2, b2);
    part_order_is_total(b1, c1);
    part_order_is_total(b2, c2);
    if part_before(c1, a1) && part_before(a1, b1) {
        part_order_is_transitive(c1, a1, b1);
    }
    if part_before(c2, a2) && part_before(a2, b2) {
        part_order_is_transitive(c2, a2, b2);
    }
}

proof fn lemma_asymmetric(a: JsonModel, b: JsonModel, first: Seq<char>, second: Seq<char>)
    requires
        object_before(a, b, first, second),
    ensures
        !object_before(b, a, first, second),
{
    part_order_is_total(text_at(field_of(a, first)), text_at(field_of(b, first)));
    part_order_is_total(text_at(field_of(a, second)), text_at(field_of(b, second)));
}

proof fn lemma_place(
    list: Seq<JsonModel>,
    object: JsonModel,
    first: Seq<char>,
    second: Seq<char>,
)
    requires
        is_ordered(list, first, second),
    ensures
        0 <= place_of(list, object, first, second) <= list.len(),
        forall|i: int|
            0 <= i < place_of(list, object, first, second) ==> object_before(
                #[trigger] list[i],
                object,
                first,
                second,
            ),
        forall|i: int|
            place_of(list, object, first, second) <= i < list.len() ==> !object_before(
                #[trigger] list[i],
                object,
                first,
                second,
            ),
    decreases list.len(),
{
    if list.len() > 0 {
        let rest = list.skip(1);
        assert forall|i: int, j: int| 0 <= i < j < rest.len() implies !object_before(
            #[trigger] rest[j],
            #[trigger] rest[i],
            first,
            second,
        ) by {
            assert(!object_before(list[j + 1], list[i + 1], first, second));
        }
        lemma_place(rest, object, first, second);
        let at = place_of(list, object, first, second);
        if !object_before(list[0], object, first, second) {
            assert forall|i: int| 0 <= i < list.len() implies !object_before(
                #[trigger] list[i],
                object,
                first,
                second,
            ) by {
                if i > 0 && object_before(list[i], object, first, second) {
                    assert(!object_before(list[i], list[0], first, second));
                    lemma_not_before_transitive(object, list[0], list[i], first, second);
                }
            }
        } else {
            assert forall|i: int| 0 <= i < at implies object_before(
                #[trigger] list[i],
                object,
                first,
                second,
            ) by {
                if i > 0 {
                    assert(rest[i - 1] == list[i]);
                }
            }
            assert forall|i: int| at <= i < list.len() implies !object_before(
                #[trigger] list[i],
                object,
                first,
                second,
            ) by {
                assert(rest[i - 1] == list[i]);
            }
        }
    }
}

/// The objects in order are the given ones, and none comes before an earlier one.
pub proof fn field_order_orders(objects: Seq<JsonModel>, first: Seq<char>, second: Seq<char>)
    ensures
        is_ordered(in_field_order(objects, first, second), first, second),
        in_field_order(objects, first, second).to_multiset() == objects.to_multiset(),
        in_field_order(objects, first, second).len() == objects.len(),
    decreases objects.len(),
{
    broadcast use vstd::seq_lib::group_to_multiset_ensures;

    if objects.len() > 0 {
        let object = objects[0];
        let rest = in_field_order(objects.skip(1), first, second);
        field_order_orders(objects.skip(1), first, second);
        lemma_place(rest, object, first, second);
        let at = place_of(rest, object, first, second);
        let list = rest.insert(at, object);
        assert(objects =~= objects.skip(1).insert(0, object));
        assert forall|i: int, j: int| 0 <= i < j < list.len() implies !object_before(
            #[trigger] list[j],
            #[trigger] list[i],
            first,
            second,
        ) by {
            if i < at && j == at {
                assert(object_before(rest[i], object, first, second));
                lemma_asymmetric(rest[i], object, first, second);
            } else if i == at {
                assert(!object_before(rest[j - 1], object, first, second));
            } else if i < at && j > at {
                assert(!object_before(rest[j - 1], rest[i], first, second));
            } else if i > at {
                assert(!object_before(rest[j - 1], rest[i - 1], first, second));
            } else {
                assert(!object_before(rest[j], rest[i], first, second));
            }
        }
    } else {
        assert(in_field_order(objects, first, second) =~= objects);
    }
}

fn text_field<'a>(object: &'a Json, name: &str) -> (r: Option<&'a str>)
    ensures
        opt_str(r) == text_at(field_of(object@, name@)),
{
    match object.get(name) {
        Some(value) => match value.as_text() {
            Some(text) => Some(text.as_str()),
            None => None,
        },
        None => None,
    }
}

fn is_before(a: &Json, b: &Json, first: &str, second: &str) -> (r: bool)
    ensures
        r == object_before(a@, b@, first@, second@),
{
    match compare_parts(text_field(a, first), text_field(b, first)) {
        TextOrder::Before => true,
        TextOrder::After => {
            proof {
                part_order_is_total(
                    text_at(field_of(a@, first@)),
                    text_at(field_of(b@, first@)),
                );
            }
            false
        },
        TextOrder::Same => match compare_parts(text_field(a, second), text_field(b, second)) {
            TextOrder::Before => true,
            _ => {
                proof {
                    part_order_is_total(
                        text_at(field_of(a@, first@)),
                        text_at(field_of(b@, first@)),
                    );
                }
                false
            },
        },
    }
}

fn find_place(list: &Vec<Json>, object: &Json, first: &str, second: &str) -> (r: usize)
    requires
        is_ordered(item_models(list@), first@, second@),
    ensures
        r == place_of(item_models(list@), object@, first@, second@),
        r <= list@.len(),
{
    let ghost models = item_models(list@);
    proof {
        lemma_place(models, object@, first@, second@);
    }
    let mut low: usize = 0;
    let mut high: usize = list.len();
    while low < high
        invariant
            models == item_models(list@),
            low <= place_of(models, object@, first@, second@) <= high <= list@.len(),
            forall|i: int|
                0 <= i < place_of(models, object@, first@, second@) ==> object_before(
                    #[trigger] models[i],
                    object@,
                    first@,
                    second@,
                ),
            forall|i: int|
                place_of(models, object@, first@, second@) <= i < models.len() ==> !object_before(
                    #[trigger] models[i],
                    object@,
                    first@,
                    second@,
                ),
        decreases high - low,
    {
        let middle: usize = low + (high - low) / 2;
        assert(models[middle as int] == list@[middle as int]@);
        if is_before(&list[middle], object, first, second) {
            low = middle + 1;
        } else {
            high = middle;
        }
    }
    low
}

/// Sorts objects by two of their fields.
pub fn sort_by_fields(objects: Vec<Json>, first: &str, second: &str) -> (r: Vec<Json>)
    ensures
        item_models(r@) == in_field_order(item_models(objects@), first@, second@),
{
    let ghost all = item_models(objects@);
    let mut rest = objects;
    let mut r: Vec<Json> = Vec::new();
    assert(item_models(r@) =~= Seq::<JsonModel>::empty());
    assert(all.skip(all.len() as int) =~= Seq::<JsonModel>::empty());
    while rest.len() > 0
        invariant
            rest@.len() <= all.len(),
            item_models(rest@) == all.take(rest@.len() as int),
            item_models(r@) == in_field_order(all.skip(rest@.len() as int), first@, second@),
        decreases rest.len(),
    {
        let ghost before = rest@;
        let ghost sorted = item_models(r@);
        let ghost n = rest@.len() as int;
        match rest.pop() {
            Some(object) => {
                let ghost model = object@;
                proof {
                    assert(item_models(before)[n - 1] == model);
                    assert(all.take(n)[n - 1] == all[n - 1]);
                    assert(item_models(rest@) =~= all.take(n - 1)) by {
                        assert(item_models(rest@) =~= item_models(before).take(n - 1));
                        assert(all.take(n).take(n - 1) =~= all.take(n - 1));
                    }
                    assert(all.skip(n - 1)[0] == model);
                    assert(all.skip(n - 1).skip(1) =~= all.skip(n));
                    field_order_orders(all.skip(n), first@, second@);
                }
                let at = find_place(&r, &object, first, second);
                r.insert(at, object);
                assert(item_models(r@) =~= sorted.insert(at as int, model));
            },
            None => {},
        }
    }
    assert(all.skip(0) =~= all);
    r
}

} // verus!
