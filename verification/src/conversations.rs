//! Conversations that are saved on this device, one file each.
use crate::clock::{
    clock_reading, is_reading, millis_of, millis_tell_moments_apart, nanos_since, now_millis, SinceEpoch,
};
use crate::messages::{copy_messages, message_views, LinkMessage, MessageView};
use crate::text::{
    decimal, decimal_is_injective, decimal_round_trip, decimal_text, decimal_value, is_blank, join, trimmed, two_digit_text, two_digits,
};
use vstd::prelude::*;
use vstd::seq_lib::{to_multiset_build, to_multiset_insert};

verus! {

/// A conversation as it is saved.
#[derive(Debug)]
pub struct SavedConversation {
    /// Identifies it among those that are saved.
    pub id: String,
    /// What it is called.
    pub label: String,
    /// When it was saved, in milliseconds since the Unix epoch.
    pub saved_at: u64,
    /// Its messages, oldest first.
    pub messages: Vec<LinkMessage>,
}

/// A saved conversation as a mathematical value.
pub struct ConversationView {
    pub id: Seq<char>,
    pub label: Seq<char>,
    pub saved_at: u64,
    pub messages: Seq<MessageView>,
}

impl View for SavedConversation {
    type V = ConversationView;

    open spec fn view(&self) -> ConversationView {
        ConversationView {
            id: self.id@,
            label: self.label@,
            saved_at: self.saved_at,
            messages: message_views(self.messages@),
        }
    }
}

// ---------------------------------------------------------------------- saving
/// The identifier of a conversation that is saved at `millis`.
pub open spec fn conversation_id(millis: u64) -> Seq<char> {
    "conv-"@ + decimal(millis as nat)
}

/// The name of the file that a conversation is saved in.
pub open spec fn conversation_file(id: Seq<char>) -> Seq<char> {
    id + ".json"@
}

/// The name of the file that a conversation is saved in.
pub fn conversation_file_name(id: &str) -> (r: String)
    ensures
        r@ == conversation_file(id@),
        r@ == id@ + ".json"@,
{
    join(id, ".json")
}

/// What a conversation is called that was given no name: the day since the Unix
/// epoch and the time of day at which it was saved, where the clock can tell.
pub open spec fn default_label(reading: Option<SinceEpoch>) -> Seq<char> {
    match reading {
        Some(t) => "Conversation - Day "@ + decimal(t.secs as nat / 86400) + " at "@ + two_digits(
            t.secs as nat % 86400 / 3600,
        ).push(':') + two_digits(t.secs as nat % 3600 / 60),
        None => "Conversation"@,
    }
}

/// What a conversation is called that was given no name.
pub fn label_at(reading: Option<SinceEpoch>) -> (r: String)
    ensures
        r@ == default_label(reading),
{
    match reading {
        Some(t) => {
            let days: String = decimal_text(t.secs / 86400);
            let mut hours: String = two_digit_text(t.secs % 86400 / 3600);
            let mins: String = two_digit_text(t.secs % 3600 / 60);
            hours.push(':');
            let day: String = join("Conversation - Day ", days.as_str());
            let until: String = join(day.as_str(), " at ");
            let hour: String = join(until.as_str(), hours.as_str());
            join(hour.as_str(), mins.as_str())
        },
        None => "Conversation".to_owned(),
    }
}

/// A conversation that is saved, when the clock is read three times: for the
/// identifier, for the time and for the name.
pub open spec fn saved_conversation(
    label: Seq<char>,
    messages: Seq<MessageView>,
    id_millis: u64,
    saved_at: u64,
    reading: Option<SinceEpoch>,
) -> ConversationView {
    ConversationView {
        id: conversation_id(id_millis),
        label: if trimmed(label).len() == 0 {
            default_label(reading)
        } else {
            label
        },
        saved_at,
        messages,
    }
}

/// The conversation that is saved, from readings of the clock.
pub fn save_conversation_at(
    label: &str,
    messages: &Vec<LinkMessage>,
    id_millis: u64,
    saved_at: u64,
    reading: Option<SinceEpoch>,
) -> (r: SavedConversation)
    ensures
        r@ == saved_conversation(label@, message_views(messages@), id_millis, saved_at, reading),
        r.id@ == "conv-"@ + decimal(id_millis as nat),
        trimmed(label@).len() > 0 ==> r.label@ == label@,
        trimmed(label@).len() == 0 ==> r.label@ == default_label(reading),
        r.saved_at == saved_at,
        r.messages@ == messages@,
{
    let digits: String = decimal_text(id_millis);
    let id: String = join("conv-", digits.as_str());
    let label: String = if is_blank(label) {
        label_at(reading)
    } else {
        label.to_owned()
    };
    SavedConversation { id, label, saved_at, messages: copy_messages(messages) }
}

/// The conversation that is saved now.
pub fn save_conversation(label: &str, messages: &Vec<LinkMessage>) -> (r: SavedConversation)
    ensures
        exists|id_millis: u64, reading: Option<SinceEpoch>|
            r@ == #[trigger] saved_conversation(
                label@,
                message_views(messages@),
                id_millis,
                r.saved_at,
                reading,
            ),
        exists|first: Option<SinceEpoch>|
            is_reading(first) && r.id@ == "conv-"@ + decimal(#[trigger] millis_of(first) as nat),
        exists|second: Option<SinceEpoch>|
            is_reading(second) && r.saved_at == #[trigger] millis_of(second),
        trimmed(label@).len() > 0 ==> r.label@ == label@,
        trimmed(label@).len() == 0 ==> exists|third: Option<SinceEpoch>|
            is_reading(third) && r.label@ == #[trigger] default_label(third),
        r.messages@ == messages@,
{
    let id_millis: u64 = now_millis();
    let saved_at: u64 = now_millis();
    let reading: Option<SinceEpoch> = clock_reading();
    assert(is_reading(reading) && default_label(reading) == default_label(reading));
    save_conversation_at(label, messages, id_millis, saved_at, reading)
}

/// Conversations that are saved a millisecond or more apart have different
/// identifiers, and so go to different files: none is written over another.
pub proof fn conversations_saved_apart_stay_apart(earlier: SinceEpoch, later: SinceEpoch)
    requires
        earlier.nanos < 1_000_000_000,
        later.nanos < 1_000_000_000,
        nanos_since(earlier) + 1_000_000 <= nanos_since(later),
        nanos_since(later) / 1_000_000 <= u64::MAX,
    ensures
        ({
            let a = "conv-"@ + decimal(millis_of(Some(earlier)) as nat);
            let b = "conv-"@ + decimal(millis_of(Some(later)) as nat);
            &&& a == conversation_id(millis_of(Some(earlier)) as u64)
            &&& b == conversation_id(millis_of(Some(later)) as u64)
            &&& a != b
            &&& conversation_file(a) != conversation_file(b)
        }),
{
    millis_tell_moments_apart(earlier, later);
    let m = millis_of(Some(earlier)) as u64;
    let n = millis_of(Some(later)) as u64;
    if conversation_file(conversation_id(m)) == conversation_file(conversation_id(n)) {
        conversations_have_their_own_files(m, n);
    }
}

/// A saved conversation keeps the label that was given, the messages and the
/// time, and its identifier is that of its milliseconds.
pub proof fn saved_conversation_is_whole(
    label: Seq<char>,
    messages: Seq<MessageView>,
    id_millis: u64,
    saved_at: u64,
    reading: Option<SinceEpoch>,
)
    ensures
        ({
            let c = saved_conversation(label, messages, id_millis, saved_at, reading);
            &&& c.messages == messages
            &&& c.saved_at == saved_at
            &&& trimmed(label).len() > 0 ==> c.label == label
            &&& trimmed(label).len() == 0 ==> c.label == default_label(reading)
            &&& c.id.take(5) == "conv-"@
            &&& decimal_value(c.id.skip(5)) == id_millis
        }),
{
    reveal_strlit("conv-");
    let c = saved_conversation(label, messages, id_millis, saved_at, reading);
    assert(c.id.take(5) =~= "conv-"@);
    assert(c.id.skip(5) =~= decimal(id_millis as nat));
    decimal_round_trip(id_millis as nat);
}

/// A conversation without a name is called after the day, the hour and the minute
/// at which it is saved.
pub proof fn label_tells_the_minute(days: nat, hours: nat, minutes: nat, t: SinceEpoch)
    requires
        hours < 24,
        minutes < 60,
        86400 * days + 3600 * hours + 60 * minutes <= t.secs,
        t.secs < 86400 * days + 3600 * hours + 60 * minutes + 60,
    ensures
        default_label(Some(t)) == "Conversation - Day "@ + decimal(days) + " at "@ + two_digits(
            hours,
        ).push(':') + two_digits(minutes),
        default_label(None) == "Conversation"@,
{
    let s = t.secs as nat;
    assert(s / 86400 == days);
    assert(s % 86400 / 3600 == hours);
    assert(s % 3600 / 60 == minutes);
}

/// Conversations that are saved in different milliseconds go to different files.
pub proof fn conversations_have_their_own_files(a: u64, b: u64)
    requires
        conversation_file(conversation_id(a)) == conversation_file(conversation_id(b)),
    ensures
        a == b,
{
    let x = conversation_file(conversation_id(a));
    let y = conversation_file(conversation_id(b));
    let from = "conv-"@.len() as int;
    let end = ".json"@.len() as int;
    assert(x.subrange(from, x.len() - end) == decimal(a as nat));
    assert(y.subrange(from, y.len() - end) == decimal(b as nat));
    decimal_is_injective(a as nat, b as nat);
}

// --------------------------------------------------------------------- listing
/// Whether a file with this extension can hold a conversation.
pub fn is_conversation_file(extension: &Option<String>) -> (r: bool)
    ensures
        r == (extension matches Some(ext) && ext@ == "json"@),
{
    match extension {
        Some(ext) => {
            let json: String = "json".to_owned();
            *ext == json
        },
        None => false,
    }
}

/// The conversations that were saved at `time`.
pub open spec fn saved_at_time(list: Seq<SavedConversation>, time: u64) -> Seq<SavedConversation> {
    list.filter(|c: SavedConversation| c.saved_at == time)
}

/// Whether the conversations are in order, the latest first.
pub open spec fn is_newest_first(list: Seq<SavedConversation>) -> bool {
    forall|i: int, j: int|
        0 <= i < j < list.len() ==> (#[trigger] list[i]).saved_at >= (#[trigger] list[j]).saved_at
}

/// Whether `sorted` is `list` with the latest first, and those of one time in
/// the order that they had.
pub open spec fn is_sorting_of(
    sorted: Seq<SavedConversation>,
    list: Seq<SavedConversation>,
) -> bool {
    &&& is_newest_first(sorted)
    &&& forall|time: u64| #[trigger] saved_at_time(sorted, time) == saved_at_time(list, time)
}

proof fn lemma_none_at_time(list: Seq<SavedConversation>, time: u64)
    requires
        forall|i: int| 0 <= i < list.len() ==> (#[trigger] list[i]).saved_at != time,
    ensures
        saved_at_time(list, time) == Seq::<SavedConversation>::empty(),
    decreases list.len(),
{
    reveal(Seq::filter);
    if list.len() > 0 {
        lemma_none_at_time(list.drop_last(), time);
    }
}

proof fn lemma_one_at_time(c: SavedConversation, time: u64)
    ensures
        saved_at_time(seq![c], time) == (if c.saved_at == time {
            seq![c]
        } else {
            Seq::<SavedConversation>::empty()
        }),
{
    reveal(Seq::filter);
    assert(seq![c].drop_last() == Seq::<SavedConversation>::empty());
    assert(saved_at_time(Seq::empty(), time) == Seq::<SavedConversation>::empty());
}

proof fn lemma_at_time_of_two(a: Seq<SavedConversation>, b: Seq<SavedConversation>, time: u64)
    ensures
        saved_at_time(a + b, time) == saved_at_time(a, time) + saved_at_time(b, time),
{
    Seq::filter_distributes_over_add(a, b, |c: SavedConversation| c.saved_at == time);
}

proof fn lemma_insertion(
    sorted: Seq<SavedConversation>,
    list: Seq<SavedConversation>,
    c: SavedConversation,
    at: int,
)
    requires
        is_sorting_of(sorted, list),
        0 <= at <= sorted.len(),
        forall|i: int| 0 <= i < at ==> (#[trigger] sorted[i]).saved_at >= c.saved_at,
        forall|i: int| at <= i < sorted.len() ==> (#[trigger] sorted[i]).saved_at < c.saved_at,
    ensures
        is_sorting_of(sorted.insert(at, c), list.push(c)),
{
    let head = sorted.take(at);
    let tail = sorted.skip(at);
    let after = sorted.insert(at, c);
    assert(after == head + seq![c] + tail);
    assert(sorted == head + tail);
    assert(list.push(c) == list + seq![c]);
    assert forall|time: u64| #[trigger]
        saved_at_time(after, time) == saved_at_time(list.push(c), time) by {
        lemma_at_time_of_two(head + seq![c], tail, time);
        lemma_at_time_of_two(head, seq![c], time);
        lemma_at_time_of_two(head, tail, time);
        lemma_at_time_of_two(list, seq![c], time);
        lemma_one_at_time(c, time);
        assert(saved_at_time(sorted, time) == saved_at_time(list, time));
        if c.saved_at == time {
            assert forall|i: int| 0 <= i < tail.len() implies (#[trigger] tail[i]).saved_at
                != time by {
                assert(tail[i] == sorted[at + i]);
            }
            lemma_none_at_time(tail, time);
        }
    }
}

proof fn lemma_last_at_time(list: Seq<SavedConversation>, time: u64)
    requires
        list.len() > 0,
    ensures
        saved_at_time(list, time) == (if list.last().saved_at == time {
            saved_at_time(list.drop_last(), time).push(list.last())
        } else {
            saved_at_time(list.drop_last(), time)
        }),
{
    reveal(Seq::filter);
}

/// There is one order in which given conversations are listed.
pub proof fn listing_order_is_unique(
    a: Seq<SavedConversation>,
    b: Seq<SavedConversation>,
    list: Seq<SavedConversation>,
)
    requires
        is_sorting_of(a, list),
        is_sorting_of(b, list),
    ensures
        a == b,
{
    assert forall|time: u64| #[trigger] saved_at_time(a, time) == saved_at_time(b, time) by {
        assert(saved_at_time(a, time) == saved_at_time(list, time));
        assert(saved_at_time(b, time) == saved_at_time(list, time));
    }
    lemma_same_order(a, b);
}

proof fn lemma_same_order(a: Seq<SavedConversation>, b: Seq<SavedConversation>)
    requires
        is_newest_first(a),
        is_newest_first(b),
        forall|time: u64| #[trigger] saved_at_time(a, time) == saved_at_time(b, time),
    ensures
        a == b,
    decreases a.len() + b.len(),
{
    if a.len() == 0 && b.len() == 0 {
        assert(a =~= b);
    } else if a.len() == 0 || (b.len() > 0 && b.last().saved_at < a.last().saved_at) {
        lemma_oldest_differs(b, a);
    } else if b.len() == 0 || a.last().saved_at < b.last().saved_at {
        lemma_oldest_differs(a, b);
    } else {
        let time = a.last().saved_at;
        lemma_last_at_time(a, time);
        lemma_last_at_time(b, time);
        let x = saved_at_time(a.drop_last(), time);
        let y = saved_at_time(b.drop_last(), time);
        assert(saved_at_time(a, time) == saved_at_time(b, time));
        assert(x.push(a.last()).last() == y.push(b.last()).last());
        assert(x.push(a.last()).drop_last() == x);
        assert(y.push(b.last()).drop_last() == y);
        assert forall|t: u64| #[trigger]
            saved_at_time(a.drop_last(), t) == saved_at_time(b.drop_last(), t) by {
            lemma_last_at_time(a, t);
            lemma_last_at_time(b, t);
            assert(saved_at_time(a, t) == saved_at_time(b, t));
        }
        lemma_same_order(a.drop_last(), b.drop_last());
        assert(a == a.drop_last().push(a.last()));
        assert(b == b.drop_last().push(b.last()));
    }
}

proof fn lemma_oldest_differs(a: Seq<SavedConversation>, b: Seq<SavedConversation>)
    requires
        a.len() > 0,
        is_newest_first(b),
        b.len() > 0 ==> a.last().saved_at < b.last().saved_at,
    ensures
        saved_at_time(a, a.last().saved_at) != saved_at_time(b, a.last().saved_at),
{
    let time = a.last().saved_at;
    lemma_last_at_time(a, time);
    lemma_none_at_time(b, time);
    assert(saved_at_time(a, time).len() > 0);
}

/// The conversations among what was found, in the order of finding.
pub open spec fn readable(found: Seq<Option<SavedConversation>>) -> Seq<SavedConversation>
    decreases found.len(),
{
    if found.len() == 0 {
        Seq::empty()
    } else {
        match found.last() {
            Some(c) => readable(found.drop_last()).push(c),
            None => readable(found.drop_last()),
        }
    }
}

/// What could be read is listed, in the order of finding, and what could not be
/// read is passed over.
pub proof fn readable_is_all_that_was_read(
    found: Seq<Option<SavedConversation>>,
    c: SavedConversation,
)
    ensures
        readable(Seq::empty()) == Seq::<SavedConversation>::empty(),
        readable(found.push(Some(c))) == readable(found).push(c),
        readable(found.push(None)) == readable(found),
{
    assert(found.push(Some(c)).drop_last() =~= found);
    assert(found.push(None::<SavedConversation>).drop_last() =~= found);
}

/// Listing loses no conversation and adds none, and puts the latest first.
pub proof fn listing_loses_nothing(sorted: Seq<SavedConversation>, list: Seq<SavedConversation>)
    requires
        is_sorting_of(sorted, list),
    ensures
        forall|c: SavedConversation| sorted.contains(c) <==> list.contains(c),
        forall|i: int, j: int|
            0 <= i < j < sorted.len() ==> (#[trigger] sorted[i]).saved_at >= (
            #[trigger] sorted[j]).saved_at,
{
    assert forall|c: SavedConversation| sorted.contains(c) <==> list.contains(c) by {
        assert(saved_at_time(sorted, c.saved_at) == saved_at_time(list, c.saved_at));
        lemma_listed_at_its_time(sorted, c);
        lemma_listed_at_its_time(list, c);
    }
}

proof fn lemma_listed_at_its_time(list: Seq<SavedConversation>, c: SavedConversation)
    ensures
        saved_at_time(list, c.saved_at).contains(c) <==> list.contains(c),
    decreases list.len(),
{
    if list.len() > 0 {
        let rest = list.drop_last();
        lemma_listed_at_its_time(rest, c);
        lemma_last_at_time(list, c.saved_at);
        assert(list =~= rest.push(list.last()));
        let x = saved_at_time(rest, c.saved_at);
        assert(list.contains(c) <==> rest.contains(c) || list.last() == c) by {
            if rest.contains(c) {
                let i = choose|i: int| 0 <= i < rest.len() && rest[i] == c;
                assert(list[i] == c);
            }
            if list.last() == c {
                assert(list[list.len() - 1] == c);
            }
        }
        assert(x.push(list.last()).contains(c) <==> x.contains(c) || list.last() == c) by {
            if x.contains(c) {
                let i = choose|i: int| 0 <= i < x.len() && x[i] == c;
                assert(x.push(list.last())[i] == c);
            }
            if list.last() == c {
                assert(x.push(list.last())[x.len() as int] == c);
            }
        }
    } else {
        lemma_none_at_time(list, c.saved_at);
    }
}

/// Lists the conversations that were found, the latest first. Files that could
/// not be read are passed over.
pub fn list_saved_conversations(found: Vec<Option<SavedConversation>>) -> (r: Vec<
    SavedConversation,
>)
    ensures
        is_sorting_of(r@, readable(found@)),
        forall|i: int, j: int|
            0 <= i < j < r@.len() ==> (#[trigger] r@[i]).saved_at >= (#[trigger] r@[j]).saved_at,
        r@.to_multiset() == readable(found@).to_multiset(),
{
    let ghost all = found@;
    let mut found = found;
    let mut pending: Vec<Option<SavedConversation>> = Vec::new();
    // The order of arrival, back to front, so that each can be moved out.
    while found.len() > 0
        invariant
            found@.len() + pending@.len() == all.len(),
            forall|i: int| 0 <= i < found@.len() ==> found@[i] == all[i],
            forall|i: int|
                0 <= i < pending@.len() ==> pending@[i] == all[all.len() - 1 - i],
        decreases found@.len(),
    {
        if let Some(entry) = found.pop() {
            pending.push(entry);
        }
    }
    let mut sorted: Vec<SavedConversation> = Vec::new();
    let ghost mut n: int = 0;
    assert(all.take(0) == Seq::<Option<SavedConversation>>::empty());
    while pending.len() > 0
        invariant
            n + pending@.len() == all.len(),
            0 <= n,
            forall|i: int|
                0 <= i < pending@.len() ==> pending@[i] == all[all.len() - 1 - i],
            is_sorting_of(sorted@, readable(all.take(n))),
            sorted@.to_multiset() == readable(all.take(n)).to_multiset(),
        decreases pending@.len(),
    {
        if let Some(entry) = pending.pop() {
            proof {
                assert(entry == all[n]);
                assert(all.take(n + 1).drop_last() == all.take(n));
                assert(all.take(n + 1).last() == all[n]);
                n = n + 1;
            }
            if let Some(c) = entry {
                let mut at: usize = sorted.len();
                while at > 0 && sorted[at - 1].saved_at < c.saved_at
                    invariant
                        at <= sorted@.len(),
                        forall|i: int|
                            at <= i < sorted@.len() ==> (#[trigger] sorted@[i]).saved_at
                                < c.saved_at,
                    decreases at,
                {
                    at = at - 1;
                }
                proof {
                    lemma_insertion(sorted@, readable(all.take(n - 1)), c, at as int);
                    to_multiset_insert(sorted@, at as int, c);
                    to_multiset_build(readable(all.take(n - 1)), c);
                }
                sorted.insert(at, c);
            }
        }
    }
    assert(all.take(all.len() as int) == all);
    sorted
}

} // verus!
