use vstd::prelude::*;
use crate::value::Value;
use crate::value::ValueV;
use crate::value::value_view;
use crate::tree::DisplayTree;
use crate::tree::TreeV;
use crate::tree::items_view;
use crate::convert::spec_to_tree;
use crate::convert::to_display_tree;

verus! {

/// One pull from the streaming item decoder: a well-formed item, a decode
/// failure, or the end of the byte source at an item boundary.
pub enum DecodeEvent {
    Item(Value),
    Malformed,
    End,
}

pub enum EventV {
    Item(ValueV),
    Malformed,
    End,
}

impl View for DecodeEvent {
    type V = EventV;

    open spec fn view(&self) -> EventV {
        match self {
            DecodeEvent::Item(v) => EventV::Item(value_view(*v)),
            DecodeEvent::Malformed => EventV::Malformed,
            DecodeEvent::End => EventV::End,
        }
    }
}

pub open spec fn events_view(es: Seq<DecodeEvent>) -> Seq<EventV> {
    Seq::new(es.len(), |i: int| es[i]@)
}

/// What the printing stage does with one pull: print the converted item,
/// abort on the first decode failure, or finish cleanly at the end.
pub enum DumpAction {
    Print(DisplayTree),
    Abort,
    Finish,
}

/// What the first-item stage does with one pull: emit this item and stop,
/// skip a decode failure and keep pulling, or finish with nothing.
pub enum HeadAction {
    Emit,
    Skip,
    Finish,
}

/// The decision of the printing stage for one pull: an item is converted
/// and printed, a decode failure is fatal, the end finishes the run.
pub fn dump_step(e: &DecodeEvent) -> (a: DumpAction)
    ensures
        match e@ {
            EventV::Item(v) => a matches DumpAction::Print(t) && t@ == spec_to_tree(v),
            EventV::Malformed => a matches DumpAction::Abort,
            EventV::End => a matches DumpAction::Finish,
        },
{
    match e {
        DecodeEvent::Item(v) => DumpAction::Print(to_display_tree(v)),
        DecodeEvent::Malformed => DumpAction::Abort,
        DecodeEvent::End => DumpAction::Finish,
    }
}

/// The decision of the first-item stage for one pull: the first well-formed
/// item is emitted, decode failures are skipped silently, the end finishes
/// with nothing emitted.
pub fn head_step(e: &DecodeEvent) -> (a: HeadAction)
    ensures
        (a matches HeadAction::Emit <==> e@ matches EventV::Item(_)),
        (a matches HeadAction::Skip <==> e@ matches EventV::Malformed),
        (a matches HeadAction::Finish <==> e@ matches EventV::End),
{
    match e {
        DecodeEvent::Item(_) => HeadAction::Emit,
        DecodeEvent::Malformed => HeadAction::Skip,
        DecodeEvent::End => HeadAction::Finish,
    }
}

/// The trees that the printing stage emits over a stream of pulls: the
/// conversions of the leading well-formed items, cut off by the first
/// decode failure or the end.
pub open spec fn dump_trees(events: Seq<EventV>) -> Seq<TreeV>
    decreases events.len(),
{
    if events.len() == 0 {
        Seq::empty()
    } else {
        match events[0] {
            EventV::Item(v) => seq![spec_to_tree(v)] + dump_trees(events.drop_first()),
            EventV::Malformed => Seq::empty(),
            EventV::End => Seq::empty(),
        }
    }
}

/// Whether the printing stage ends in the fatal decode failure: a malformed
/// pull stands before the end of the stream.
pub open spec fn dump_fails(events: Seq<EventV>) -> bool
    decreases events.len(),
{
    if events.len() == 0 {
        false
    } else {
        match events[0] {
            EventV::Item(_) => dump_fails(events.drop_first()),
            EventV::Malformed => true,
            EventV::End => false,
        }
    }
}

/// The item that the first-item stage keeps: the first well-formed one
/// before the end, if any.
pub open spec fn head_choice(events: Seq<EventV>) -> Option<ValueV>
    decreases events.len(),
{
    if events.len() == 0 {
        Option::None
    } else {
        match events[0] {
            EventV::Item(v) => Option::Some(v),
            EventV::Malformed => head_choice(events.drop_first()),
            EventV::End => Option::None,
        }
    }
}

/// The printing stage applied to a finite sequence of pulls: the trees
/// printed in order, and whether the run ended in the fatal decode failure.
#[verifier::loop_isolation(false)]
pub fn run_dump(events: &Vec<DecodeEvent>) -> (r: (Vec<DisplayTree>, bool))
    ensures
        items_view(r.0@) == dump_trees(events_view(events@)),
        r.1 == dump_fails(events_view(events@)),
{
    let ghost ev = events_view(events@);
    let mut out: Vec<DisplayTree> = Vec::new();
    proof {
        assert(ev.skip(0) =~= ev);
        assert(items_view(out@) + dump_trees(ev) =~= dump_trees(ev));
    }
    let mut i: usize = 0;
    while i < events.len()
        invariant
            i <= ev.len(),
            dump_trees(ev) == items_view(out@) + dump_trees(ev.skip(i as int)),
            dump_fails(ev) == dump_fails(ev.skip(i as int)),
        decreases ev.len() - i,
    {
        proof {
            assert(ev.skip(i as int)[0] == ev[i as int]);
            assert(ev.skip(i as int).drop_first() =~= ev.skip(i + 1));
        }
        match dump_step(&events[i]) {
            DumpAction::Print(t) => {
                let ghost prev = out@;
                out.push(t);
                proof {
                    assert(out@.drop_last() =~= prev);
                    assert(items_view(out@) =~= items_view(prev).push(t@));
                    assert(items_view(out@) + dump_trees(ev.skip(i + 1)) =~= items_view(prev)
                        + dump_trees(ev.skip(i as int)));
                }
            },
            DumpAction::Abort => {
                return (out, true);
            },
            DumpAction::Finish => {
                return (out, false);
            },
        }
        i += 1;
    }
    proof {
        assert(ev.skip(ev.len() as int) =~= Seq::<EventV>::empty());
    }
    (out, false)
}

/// The first-item stage applied to a finite sequence of pulls: the position
/// of the item it emits, if it emits one. Pulls past that position are
/// never looked at.
#[verifier::loop_isolation(false)]
pub fn run_head(events: &Vec<DecodeEvent>) -> (r: Option<usize>)
    ensures
        match r {
            Option::Some(i) => i < events@.len()
                && (events@[i as int]@ matches EventV::Item(v)
                    && head_choice(events_view(events@)) == Option::<ValueV>::Some(v))
                && (forall|j: int| 0 <= j < i ==> (#[trigger] events@[j])@ is Malformed),
            Option::None => head_choice(events_view(events@)) is None,
        },
{
    let ghost ev = events_view(events@);
    proof {
        assert(ev.skip(0) =~= ev);
    }
    let mut i: usize = 0;
    while i < events.len()
        invariant
            i <= ev.len(),
            head_choice(ev) == head_choice(ev.skip(i as int)),
            forall|j: int| 0 <= j < i ==> (#[trigger] events@[j])@ is Malformed,
        decreases ev.len() - i,
    {
        proof {
            assert(ev.skip(i as int)[0] == ev[i as int]);
            assert(ev.skip(i as int).drop_first() =~= ev.skip(i + 1));
        }
        match head_step(&events[i]) {
            HeadAction::Emit => {
                return Option::Some(i);
            },
            HeadAction::Skip => {},
            HeadAction::Finish => {
                return Option::None;
            },
        }
        i += 1;
    }
    proof {
        assert(ev.skip(ev.len() as int) =~= Seq::<EventV>::empty());
    }
    Option::None
}

} // verus!
