//! The work on the whole entity list.

use vstd::prelude::*;
use vstd::seq_lib::{to_multiset_build, to_multiset_contains, to_multiset_remove};

use crate::entity::{find_target_of_key, target_of_key, Target, TargetModel};
use crate::number::decimal;
use crate::output::{keyed, law_records_read_back, object, read_object, RecordModel};
use crate::run::{law_every_run_ends, law_one_record, run, sends};
use crate::task::{accepts, begin, Action, ActionModel, EventModel, Task};

verus! {

/// How the work on an entity opens.
#[derive(Debug)]
pub enum Opening {
    /// With a task, which asks for this first.
    Work { task: Task, action: Action },
    /// Not at all, for the key names no resource: there is only a record to send.
    Skip { target: Target, action: Action },
}

/// The record of an entity without a text.
pub open spec fn empty_record(id: u64) -> ActionModel {
    ActionModel::Send { id, text: Seq::empty() }
}

/// Opens the work on an entity.
///
/// A key that names no resource still gets a record, so that each entity has one.
pub fn open_entity(key: &str, id: u64) -> (opening: Opening)
    ensures
        match (target_of_key(key@), opening) {
            (TargetModel::Resource(name), Opening::Work { task, action }) => {
                &&& task.model() == begin(name, id).0
                &&& action.model() == begin(name, id).1
            },
            (TargetModel::Resource(_), Opening::Skip { .. }) => false,
            (other, Opening::Skip { target, action }) => {
                &&& target.model() == other
                &&& action.model() == empty_record(id)
                &&& action matches Action::Send { id: sent, text }
                &&& sent == id
                &&& text@.len() == 0
            },
            (_, Opening::Work { .. }) => false,
        },
{
    match find_target_of_key(key) {
        Target::Resource(name) => {
            let (task, action) = Task::start(name, id);
            Opening::Work { task, action }
        },
        target => Opening::Skip { target, action: Action::Send { id, text: String::new() } },
    }
}

/// All that the work on an entity asks for, given the events of its task; nothing where
/// one of the events is none that the task waited for.
pub open spec fn entity_actions(key: Seq<char>, id: u64, events: Seq<EventModel>) -> Option<
    Seq<ActionModel>,
> {
    match target_of_key(key) {
        TargetModel::Resource(name) => match run(name, id, events) {
            Some((_, actions)) => Some(actions),
            None => None,
        },
        _ => if events.len() == 0 {
            Some(seq![empty_record(id)])
        } else {
            None
        },
    }
}

/// An entity whose key names no resource gets a record with an empty text, and nothing is
/// asked for; one whose key names a resource is worked on under that name, and the first
/// thing asked for is the data document of the resource.
pub proof fn law_how_entities_open(key: Seq<char>, id: u64)
    ensures
        match target_of_key(key) {
            TargetModel::Resource(name) => entity_actions(key, id, Seq::empty()) == Some(
                seq![
                    ActionModel::Request {
                        url: "https://dbpedia.org/data/"@ + name + ".json"@,
                        timeout_secs: 10,
                    },
                ],
            ),
            _ => entity_actions(key, id, Seq::empty()) == Some(
                seq![ActionModel::Send { id, text: Seq::empty() }],
            ),
        },
        empty_record(id) == (ActionModel::Send { id, text: Seq::empty() }),
{
}

/// The record that the work on an entity sends.
pub open spec fn record_sent(actions: Seq<ActionModel>) -> Option<RecordModel> {
    if actions.len() > 0 {
        match actions.last() {
            ActionModel::Send { id, text } => Some((id, text)),
            _ => None,
        }
    } else {
        None
    }
}

/// The work on an entity sends one record at most, with the identifier of the entity and as
/// the last thing it does; until then there is always an event with which it goes on.
pub proof fn law_one_record_for_each_entity(key: Seq<char>, id: u64, events: Seq<EventModel>)
    ensures
        entity_actions(key, id, events) matches Some(actions) ==> {
            &&& sends(actions) <= 1
            &&& sends(actions) == 1 <==> record_sent(actions) is Some
            &&& record_sent(actions) matches Some(record) ==> record.0 == id
            &&& sends(actions) == 0 ==> exists|event: EventModel|
                entity_actions(key, id, #[trigger] events.push(event)) is Some
        },
{
    match target_of_key(key) {
        TargetModel::Resource(name) => {
            law_one_record(name, id, events);
            law_every_run_ends(name, id, events);
            if let Some((task, actions)) = run(name, id, events) {
                if sends(actions) == 0 {
                    let event = choose|event: EventModel| accepts(task, event);
                    assert(events.push(event).drop_last() =~= events);
                    assert(events.push(event).last() == event);
                    assert(entity_actions(key, id, events.push(event)) is Some);
                }
            }
        },
        _ => {
            let actions = seq![empty_record(id)];
            assert(actions.drop_last() =~= Seq::<ActionModel>::empty());
            reveal_with_fuel(sends, 2);
        },
    }
}

/// The record that the work on the `i`th entity of a list sends, given the events of each.
pub open spec fn sent_for(
    entities: Seq<(Seq<char>, u64)>,
    runs: Seq<Seq<EventModel>>,
    i: int,
) -> Option<RecordModel> {
    match entity_actions(entities[i].0, entities[i].1, runs[i]) {
        Some(actions) => record_sent(actions),
        None => None,
    }
}

/// Whether `order` has each number below `n` once.
pub open spec fn is_order(order: Seq<int>, n: nat) -> bool {
    &&& order.len() == n
    &&& order.no_duplicates()
    &&& forall|k: int| 0 <= k < n ==> 0 <= #[trigger] order[k] < n
    &&& forall|i: int| 0 <= i < n ==> #[trigger] order.contains(i)
}

/// The records of all entities, in the order in which they arrive.
pub open spec fn arrived(
    entities: Seq<(Seq<char>, u64)>,
    runs: Seq<Seq<EventModel>>,
    order: Seq<int>,
) -> Seq<RecordModel> {
    Seq::new(order.len(), |k: int| sent_for(entities, runs, order[k])->0)
}

/// The items of a list, in another order.
pub open spec fn reordered<A>(items: Seq<A>, order: Seq<int>) -> Seq<A> {
    Seq::new(order.len(), |k: int| items[order[k]])
}

proof fn lemma_reordered_has_the_same_items<A>(items: Seq<A>, order: Seq<int>)
    requires
        is_order(order, items.len()),
    ensures
        reordered(items, order).to_multiset() == items.to_multiset(),
    decreases items.len(),
{
    if items.len() == 0 {
        assert(reordered(items, order) =~= items);
    } else {
        let n = items.len() - 1;
        assert(order.contains(n));
        let k = choose|k: int| 0 <= k < order.len() && order[k] == n;
        let rest = order.remove(k);
        assert forall|i: int| 0 <= i < n implies #[trigger] rest.contains(i) by {
            assert(order.contains(i));
            let j = choose|j: int| 0 <= j < order.len() && order[j] == i;
            assert(rest[if j < k { j } else { j - 1 }] == i);
        }
        assert forall|j: int| 0 <= j < n implies 0 <= #[trigger] rest[j] < n by {
            assert(rest[j] == order[if j < k { j } else { j + 1 }]);
        }
        lemma_reordered_has_the_same_items(items.drop_last(), rest);
        let all = reordered(items, order);
        assert(all.remove(k) =~= reordered(items.drop_last(), rest));
        assert(items =~= items.drop_last().push(items.last()));
        to_multiset_remove(all, k);
        to_multiset_build(items.drop_last(), items.last());
        assert(all[k] == items.last());
        to_multiset_contains(all, items.last());
        assert(all.to_multiset().remove(items.last()).insert(items.last()) =~= all.to_multiset());
    }
}

proof fn lemma_arrived_identifiers(
    entities: Seq<(Seq<char>, u64)>,
    runs: Seq<Seq<EventModel>>,
    order: Seq<int>,
)
    requires
        is_order(order, entities.len()),
        forall|i: int| 0 <= i < entities.len() ==> (#[trigger] sent_for(entities, runs, i)) is Some,
    ensures
        forall|k: int|
            0 <= k < entities.len() ==> (#[trigger] arrived(entities, runs, order)[k]).0
                == entities[order[k]].1,
{
    assert forall|k: int| 0 <= k < entities.len() implies (#[trigger] arrived(
        entities,
        runs,
        order,
    )[k]).0 == entities[order[k]].1 by {
        let i = order[k];
        assert(sent_for(entities, runs, i) is Some);
        law_one_record_for_each_entity(entities[i].0, entities[i].1, runs[i]);
    }
}

/// Once the work on each entity has sent its record, as many records have arrived as there
/// are entities, and their identifiers are those of the entities, each as often as there,
/// whatever the order in which the records arrive.
pub proof fn law_identifiers_arrive(
    entities: Seq<(Seq<char>, u64)>,
    runs: Seq<Seq<EventModel>>,
    order: Seq<int>,
)
    requires
        runs.len() == entities.len(),
        is_order(order, entities.len()),
        forall|i: int| 0 <= i < entities.len() ==> (#[trigger] sent_for(entities, runs, i)) is Some,
    ensures
        arrived(entities, runs, order).len() == entities.len(),
        arrived(entities, runs, order).map_values(|record: RecordModel| record.0).to_multiset()
            == entities.map_values(|entity: (Seq<char>, u64)| entity.1).to_multiset(),
{
    let records = arrived(entities, runs, order);
    let ids = entities.map_values(|entity: (Seq<char>, u64)| entity.1);
    lemma_arrived_identifiers(entities, runs, order);
    assert(records.map_values(|record: RecordModel| record.0) =~= reordered(ids, order));
    lemma_reordered_has_the_same_items(ids, order);
}

/// Once the work on each entity has sent its record, the result file has one member for
/// each entity, under its identifier and with the text that was sent, whatever the order
/// in which the records arrive.
pub proof fn law_file_has_each_entity_once(
    entities: Seq<(Seq<char>, u64)>,
    runs: Seq<Seq<EventModel>>,
    order: Seq<int>,
)
    requires
        runs.len() == entities.len(),
        is_order(order, entities.len()),
        forall|i: int| 0 <= i < entities.len() ==> (#[trigger] sent_for(entities, runs, i)) is Some,
    ensures
        read_object(object(arrived(entities, runs, order))) == Some(
            Seq::new(
                entities.len(),
                |k: int|
                    (
                        decimal(entities[order[k]].1 as nat),
                        (sent_for(entities, runs, order[k])->0).1,
                    ),
            ),
        ),
{
    let records = arrived(entities, runs, order);
    law_records_read_back(records);
    lemma_arrived_identifiers(entities, runs, order);
    assert(keyed(records) =~= Seq::new(
        entities.len(),
        |k: int|
            (
                decimal(entities[order[k]].1 as nat),
                (sent_for(entities, runs, order[k])->0).1,
            ),
    ));
}

} // verus!
