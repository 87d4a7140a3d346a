//! The gaps between neighbouring participants.
//!
//! Gap `i` is the distance from the centre of participant `i` to the centre
//! of participant `i + 1`. It starts at what the two boxes and the minimum
//! spacing need, and grows wherever a message label needs more room.

use vstd::prelude::*;

use crate::layout::text::{text_width_capped, text_width_spec};
use crate::sequence::constants::{
    LAYOUT_LIMIT, MAX_TEXT_WIDTH, MESSAGE_TEXT_MARGIN, MIN_PARTICIPANT_SPACING,
};
use crate::sequence::diagram::{actor_names, Message, Participant};
use crate::sequence::laws::lemma_messages_grow_gaps;
use crate::strings::same_text;
use crate::units::{
    add_capped, all_capped, capped, ceil_div_spec, half, ints, lemma_ceil_div, max_int, min_int,
};

verus! {

/// Position of the first of `names` that equals `name`, looking from
/// position `from` on.
pub open spec fn first_index_from(names: Seq<Seq<char>>, name: Seq<char>, from: int) -> Option<int>
    decreases names.len() - from,
{
    if from < 0 || from >= names.len() {
        None
    } else if names[from] == name {
        Some(from)
    } else {
        first_index_from(names, name, from + 1)
    }
}

/// Position of the first of `names` that equals `name`.
pub open spec fn first_index(names: Seq<Seq<char>>, name: Seq<char>) -> Option<int> {
    first_index_from(names, name, 0)
}

/// The gaps before any message is looked at: gap `i` separates participant
/// `i` from participant `i + 1` and holds half of each of their boxes and
/// the minimum spacing between them.
pub open spec fn initial_gaps(widths: Seq<int>, participants: int) -> Seq<int> {
    Seq::new(
        if participants >= 1 {
            (participants - 1) as nat
        } else {
            0
        },
        |i: int| widths[i] / 2 + MIN_PARTICIPANT_SPACING + widths[i + 1] / 2,
    )
}

/// Sum of the gaps `lo..hi`: the distance from participant `lo` to
/// participant `hi`.
pub open spec fn span(gaps: Seq<int>, lo: int, hi: int) -> int
    decreases hi - lo,
{
    if lo >= hi {
        0
    } else {
        span(gaps, lo, hi - 1) + gaps[hi - 1]
    }
}

/// The gaps after room was made for a label that needs `required` between
/// participant `lo` and participant `hi`: where the span is too short, each
/// gap of the span grows by an equal share of what is missing, rounded up.
pub open spec fn widen(gaps: Seq<int>, lo: int, hi: int, required: int) -> Seq<int> {
    let missing = required - span(gaps, lo, hi);
    if missing > 0 && lo < hi {
        let share = ceil_div_spec(missing, hi - lo);
        Seq::new(
            gaps.len(),
            |i: int|
                if lo <= i < hi {
                    gaps[i] + share
                } else {
                    gaps[i]
                },
        )
    } else {
        gaps
    }
}

/// The participants between which `message` needs room, left one first.
/// A self-message needs none, and neither does a message that names a
/// participant that the diagram does not have.
pub open spec fn message_span(names: Seq<Seq<char>>, message: Message) -> Option<(int, int)> {
    if message.from@ == message.to@ {
        None
    } else {
        match (first_index(names, message.from@), first_index(names, message.to@)) {
            (Some(a), Some(b)) => Some((min_int(a, b), max_int(a, b))),
            _ => None,
        }
    }
}

/// Width that the label of `message` needs between its two ends.
pub open spec fn required_span(message: Message, font_size: int) -> int {
    label_width(message.text@, font_size) + MESSAGE_TEXT_MARGIN
}

/// Width at which a label is measured: its width, held at `MAX_TEXT_WIDTH`.
pub open spec fn label_width(text: Seq<char>, font_size: int) -> int {
    capped(text_width_spec(text, font_size), MAX_TEXT_WIDTH as int)
}

/// The gaps after `message` was looked at.
pub open spec fn gaps_after_message(
    names: Seq<Seq<char>>,
    gaps: Seq<int>,
    message: Message,
    font_size: int,
) -> Seq<int> {
    match message_span(names, message) {
        Some((lo, hi)) => widen(gaps, lo, hi, required_span(message, font_size)),
        None => gaps,
    }
}

/// The gaps after all of `messages` were looked at, in their order. Growth
/// adds up: no message takes back what an earlier one was given.
pub open spec fn gaps_after(
    names: Seq<Seq<char>>,
    gaps: Seq<int>,
    messages: Seq<Message>,
    font_size: int,
) -> Seq<int>
    decreases messages.len(),
{
    if messages.len() == 0 {
        gaps
    } else {
        gaps_after_message(
            names,
            gaps_after(names, gaps, messages.drop_last(), font_size),
            messages.last(),
            font_size,
        )
    }
}

/// The gaps between participants that are named `names` and whose boxes are
/// `widths` wide, after `messages`.
pub open spec fn gap_spacings_spec(
    names: Seq<Seq<char>>,
    widths: Seq<int>,
    messages: Seq<Message>,
    font_size: int,
) -> Seq<int> {
    gaps_after(names, initial_gaps(widths, names.len() as int), messages, font_size)
}

/// Whether no gap is negative.
pub open spec fn no_gap_negative(gaps: Seq<int>) -> bool {
    forall|i: int| 0 <= i < gaps.len() ==> 0 <= #[trigger] gaps[i]
}

/// What `first_index` finds: the first position that holds `name`, or
/// nothing where no position holds it.
pub proof fn lemma_first_index(names: Seq<Seq<char>>, name: Seq<char>, from: int)
    requires
        0 <= from,
    ensures
        match first_index_from(names, name, from) {
            Some(i) => from <= i < names.len() && names[i] == name && forall|j: int|
                from <= j < i ==> names[j] != name,
            None => forall|j: int| from <= j < names.len() ==> names[j] != name,
        },
    decreases names.len() - from,
{
    if from < names.len() && names[from] != name {
        lemma_first_index(names, name, from + 1);
    }
}

/// A span of gaps that are each held at a limit, itself held at that
/// limit, is the span of the gaps themselves held at the limit: nothing is
/// lost by holding the gaps first.
pub proof fn lemma_capped_span(gaps: Seq<int>, lo: int, hi: int, limit: int)
    requires
        no_gap_negative(gaps),
        0 <= lo <= hi <= gaps.len(),
        limit >= 0,
    ensures
        capped(span(all_capped(gaps, limit), lo, hi), limit) == capped(span(gaps, lo, hi), limit),
        0 <= span(all_capped(gaps, limit), lo, hi) <= span(gaps, lo, hi),
    decreases hi - lo,
{
    if lo < hi {
        lemma_capped_span(gaps, lo, hi - 1, limit);
        assert(all_capped(gaps, limit)[hi - 1] == capped(gaps[hi - 1], limit));
        assert(gaps[hi - 1] >= 0);
    }
}

/// Position of the first of `participants` that is named `name`.
pub fn find_participant_index(participants: &[Participant], name: &str) -> (found: Option<usize>)
    ensures
        match found {
            Some(i) => first_index(actor_names(participants@), name@) == Some(i as int),
            None => first_index(actor_names(participants@), name@).is_none(),
        },
        found matches Some(i) ==> i < participants@.len(),
{
    let ghost names = actor_names(participants@);
    let mut i: usize = 0;
    while i < participants.len()
        invariant
            i <= participants@.len(),
            names == actor_names(participants@),
            first_index(names, name@) == first_index_from(names, name@, i as int),
        decreases participants@.len() - i,
    {
        assert(names[i as int] == participants@[i as int].actor@);
        if same_text(participants[i].actor.as_str(), name) {
            return Some(i);
        }
        i = i + 1;
    }
    None
}

fn initial_gap_spacings(participant_widths: &[i64], num_gaps: usize) -> (spacings: Vec<i64>)
    requires
        num_gaps < participant_widths@.len(),
        forall|i: int|
            0 <= i < participant_widths@.len() ==> 0 <= #[trigger] participant_widths@[i]
                <= LAYOUT_LIMIT,
    ensures
        ints(spacings@) == all_capped(
            initial_gaps(ints(participant_widths@), num_gaps + 1),
            LAYOUT_LIMIT as int,
        ),
        no_gap_negative(initial_gaps(ints(participant_widths@), num_gaps + 1)),
        spacings@.len() == num_gaps,
{
    let mut spacings: Vec<i64> = Vec::new();
    let mut i: usize = 0;
    while i < num_gaps
        invariant
            i <= num_gaps < participant_widths@.len(),
            spacings@.len() == i,
            forall|k: int|
                0 <= k < participant_widths@.len() ==> 0 <= #[trigger] participant_widths@[k]
                    <= LAYOUT_LIMIT,
            forall|k: int|
                0 <= k < i ==> #[trigger] spacings@[k] == capped(
                    participant_widths@[k] / 2 + MIN_PARTICIPANT_SPACING + participant_widths@[k
                        + 1] / 2,
                    LAYOUT_LIMIT as int,
                ),
        decreases num_gaps - i,
    {
        assert(0 <= participant_widths@[i as int] <= LAYOUT_LIMIT);
        assert(0 <= participant_widths@[i + 1] <= LAYOUT_LIMIT);
        let left_half: i64 = half(participant_widths[i]);
        let right_half: i64 = half(participant_widths[i + 1]);
        spacings.push(add_capped(left_half, MIN_PARTICIPANT_SPACING + right_half, LAYOUT_LIMIT));
        i = i + 1;
    }
    proof {
        let exact = initial_gaps(ints(participant_widths@), num_gaps + 1);
        assert(ints(spacings@) =~= all_capped(exact, LAYOUT_LIMIT as int));
        assert forall|k: int| 0 <= k < exact.len() implies 0 <= #[trigger] exact[k] by {
            assert(0 <= participant_widths@[k] <= LAYOUT_LIMIT);
            assert(0 <= participant_widths@[k + 1] <= LAYOUT_LIMIT);
        }
    }
    spacings
}

/// An equal share of `extra` for each of `count` gaps, rounded up.
fn share_of(extra: i64, count: usize) -> (share: i64)
    requires
        extra > 0,
        count >= 1,
    ensures
        share == ceil_div_spec(extra as int, count as int),
        0 <= share <= extra,
{
    let whole: u64 = (extra as u64) / (count as u64);
    let rest: u64 = (extra as u64) % (count as u64);
    proof {
        lemma_ceil_div(extra as int, count as int);
        assert(extra == whole * count + rest && 0 <= rest < count && 0 <= whole <= extra)
            by (nonlinear_arith)
            requires
                extra > 0,
                count >= 1,
                whole == (extra as int) / (count as int),
                rest == (extra as int) % (count as int),
        ;
        if rest != 0 {
            assert(whole < extra) by (nonlinear_arith)
                requires
                    extra == whole * count + rest,
                    0 < rest < count,
                    whole >= 0,
            ;
        }
    }
    if rest == 0 {
        whole as i64
    } else {
        (whole + 1) as i64
    }
}

/// The span of the gaps `lo..hi`, held at the limit of the layout.
fn span_of(spacings: &Vec<i64>, lo: usize, hi: usize) -> (sum: i64)
    requires
        lo <= hi <= spacings@.len(),
        forall|i: int| 0 <= i < spacings@.len() ==> 0 <= #[trigger] spacings@[i] <= LAYOUT_LIMIT,
    ensures
        sum == capped(span(ints(spacings@), lo as int, hi as int), LAYOUT_LIMIT as int),
        0 <= sum <= LAYOUT_LIMIT,
{
    let ghost gaps = ints(spacings@);
    let mut sum: i64 = 0;
    let mut g: usize = lo;
    while g < hi
        invariant
            lo <= g <= hi <= spacings@.len(),
            gaps == ints(spacings@),
            forall|i: int|
                0 <= i < spacings@.len() ==> 0 <= #[trigger] spacings@[i] <= LAYOUT_LIMIT,
            sum == capped(span(gaps, lo as int, g as int), LAYOUT_LIMIT as int),
            0 <= span(gaps, lo as int, g as int),
            0 <= sum <= LAYOUT_LIMIT,
        decreases hi - g,
    {
        assert(gaps[g as int] == spacings@[g as int]);
        sum = add_capped(sum, spacings[g], LAYOUT_LIMIT);
        g = g + 1;
    }
    sum
}

/// Makes room for a label that requires `required` between participant
/// `lo` and participant `hi`. `exact` are the gaps as they would be without
/// the limit of the layout; the gaps held are those, held at the limit.
fn widen_gaps(
    spacings: &mut Vec<i64>,
    lo: usize,
    hi: usize,
    required: i64,
    Ghost(exact): Ghost<Seq<int>>,
)
    requires
        lo < hi <= old(spacings)@.len(),
        ints(old(spacings)@) == all_capped(exact, LAYOUT_LIMIT as int),
        no_gap_negative(exact),
        0 <= required < LAYOUT_LIMIT,
    ensures
        ints(final(spacings)@) == all_capped(
            widen(exact, lo as int, hi as int, required as int),
            LAYOUT_LIMIT as int,
        ),
        final(spacings)@.len() == old(spacings)@.len(),
{
    let ghost limit = LAYOUT_LIMIT as int;
    let ghost before = ints(spacings@);
    proof {
        assert(exact.len() == spacings@.len()) by {
            assert(before.len() == all_capped(exact, limit).len());
        }
        assert forall|i: int| 0 <= i < spacings@.len() implies 0 <= #[trigger] spacings@[i]
            <= LAYOUT_LIMIT by {
            assert(before[i] == spacings@[i]);
            assert(all_capped(exact, limit)[i] == capped(exact[i], limit));
            assert(exact[i] >= 0);
        }
        lemma_capped_span(exact, lo as int, hi as int, limit);
    }
    let current_span: i64 = span_of(spacings, lo, hi);
    if required > current_span {
        // The span is below the limit, so it is the span itself.
        assert(current_span == span(exact, lo as int, hi as int));
        let extra: i64 = required - current_span;
        let gaps_count: usize = hi - lo;
        let share: i64 = share_of(extra, gaps_count);
        assert forall|i: int| 0 <= i < exact.len() implies #[trigger] spacings@[i] == capped(
            exact[i],
            limit,
        ) by {
            assert(before[i] == spacings@[i]);
            assert(all_capped(exact, limit)[i] == capped(exact[i], limit));
        }
        let mut g: usize = lo;
        while g < hi
            invariant
                lo <= g <= hi <= spacings@.len(),
                spacings@.len() == exact.len(),
                share >= 0,
                limit == LAYOUT_LIMIT,
                no_gap_negative(exact),
                forall|i: int|
                    0 <= i < exact.len() ==> #[trigger] spacings@[i] == if lo <= i < g {
                        capped(exact[i] + share, limit)
                    } else {
                        capped(exact[i], limit)
                    },
            decreases hi - g,
        {
            assert(exact[g as int] >= 0);
            let grown: i64 = add_capped(spacings[g], share, LAYOUT_LIMIT);
            spacings.set(g, grown);
            g = g + 1;
        }
        proof {
            let target = widen(exact, lo as int, hi as int, required as int);
            assert(ints(spacings@) =~= all_capped(target, limit));
        }
    } else {
        proof {
            let target = widen(exact, lo as int, hi as int, required as int);
            assert(target == exact);
        }
    }
}

/// The gaps between neighbouring participants.
///
/// Each gap starts as half of the two boxes beside it plus the minimum
/// spacing. Then every message between two different participants of the
/// diagram, in the order of `statements`, widens the gaps that its arrow
/// crosses until its label with its margin fits between its two ends.
/// Self-messages and messages to or from an unknown participant change
/// nothing. A gap that would pass the limit of the layout is held at it.
pub fn calculate_gap_spacings(
    participants: &[Participant],
    participant_widths: &[i64],
    statements: &[Message],
    font_size: u32,
) -> (spacings: Vec<i64>)
    requires
        participant_widths@.len() >= participants@.len(),
        forall|i: int|
            0 <= i < participant_widths@.len() ==> 0 <= #[trigger] participant_widths@[i]
                <= LAYOUT_LIMIT,
    ensures
        ints(spacings@) == all_capped(
            gap_spacings_spec(
                actor_names(participants@),
                ints(participant_widths@),
                statements@,
                font_size as int,
            ),
            LAYOUT_LIMIT as int,
        ),
        no_gap_negative(
            gap_spacings_spec(
                actor_names(participants@),
                ints(participant_widths@),
                statements@,
                font_size as int,
            ),
        ),
        spacings@.len() == if participants@.len() == 0 {
            0
        } else {
            participants@.len() - 1
        },
        forall|i: int| 0 <= i < spacings@.len() ==> 0 <= #[trigger] spacings@[i] <= LAYOUT_LIMIT,
{
    let ghost names = actor_names(participants@);
    let ghost start = initial_gaps(ints(participant_widths@), names.len() as int);
    let ghost limit = LAYOUT_LIMIT as int;
    let num_gaps: usize = if participants.len() == 0 {
        0
    } else {
        participants.len() - 1
    };
    if num_gaps == 0 {
        let spacings: Vec<i64> = Vec::new();
        proof {
            lemma_no_gaps_stay(names, start, statements@, font_size as int);
            assert(ints(spacings@) =~= all_capped(start, limit));
        }
        return spacings;
    }
    let mut spacings: Vec<i64> = initial_gap_spacings(participant_widths, num_gaps);
    assert(names.len() == participants@.len());
    assert(start.len() == num_gaps);
    let mut k: usize = 0;
    assert(statements@.take(0) =~= Seq::<Message>::empty());
    while k < statements.len()
        invariant
            k <= statements@.len(),
            names == actor_names(participants@),
            limit == LAYOUT_LIMIT,
            no_gap_negative(start),
            start.len() == participants@.len() - 1,
            spacings@.len() == participants@.len() - 1,
            ints(spacings@) == all_capped(
                gaps_after(names, start, statements@.take(k as int), font_size as int),
                limit,
            ),
        decreases statements@.len() - k,
    {
        let msg: &Message = &statements[k];
        let ghost exact = gaps_after(names, start, statements@.take(k as int), font_size as int);
        proof {
            assert(statements@.take(k + 1).drop_last() =~= statements@.take(k as int));
            assert(statements@.take(k + 1).last() == *msg);
            lemma_messages_grow_gaps(names, start, statements@.take(k as int), font_size as int);
            assert(no_gap_negative(exact)) by {
                assert forall|i: int| 0 <= i < exact.len() implies 0 <= #[trigger] exact[i] by {
                    assert(exact[i] >= start[i]);
                }
            }
        }
        // A self-message needs no room between participants.
        if !same_text(msg.from.as_str(), msg.to.as_str()) {
            let from_idx = find_participant_index(participants, msg.from.as_str());
            let to_idx = find_participant_index(participants, msg.to.as_str());
            match (from_idx, to_idx) {
                (Some(from_idx), Some(to_idx)) => {
                    proof {
                        lemma_first_index(names, msg.from@, 0);
                        lemma_first_index(names, msg.to@, 0);
                    }
                    let (min_idx, max_idx) = if from_idx < to_idx {
                        (from_idx, to_idx)
                    } else {
                        (to_idx, from_idx)
                    };
                    let required_width: i64 = text_width_capped(
                        msg.text.as_str(),
                        font_size,
                        MAX_TEXT_WIDTH,
                    ) + MESSAGE_TEXT_MARGIN;
                    widen_gaps(&mut spacings, min_idx, max_idx, required_width, Ghost(exact));
                },
                _ => {},
            }
        }
        k = k + 1;
    }
    proof {
        assert(statements@.take(statements@.len() as int) =~= statements@);
        let exact = gaps_after(names, start, statements@, font_size as int);
        lemma_messages_grow_gaps(names, start, statements@, font_size as int);
        assert forall|i: int| 0 <= i < exact.len() implies 0 <= #[trigger] exact[i] by {
            assert(exact[i] >= start[i]);
        }
        assert forall|i: int| 0 <= i < spacings@.len() implies 0 <= #[trigger] spacings@[i]
            <= LAYOUT_LIMIT by {
            assert(ints(spacings@)[i] == spacings@[i]);
            assert(all_capped(exact, limit)[i] == capped(exact[i], limit));
            assert(exact[i] >= 0);
        }
    }
    spacings
}

/// Where there is no gap, no message makes one.
pub proof fn lemma_no_gaps_stay(
    names: Seq<Seq<char>>,
    gaps: Seq<int>,
    messages: Seq<Message>,
    font_size: int,
)
    requires
        gaps.len() == 0,
    ensures
        gaps_after(names, gaps, messages, font_size) == gaps,
    decreases messages.len(),
{
    if messages.len() > 0 {
        lemma_no_gaps_stay(names, gaps, messages.drop_last(), font_size);
        let message = messages.last();
        match message_span(names, message) {
            Some((lo, hi)) => {
                assert(widen(gaps, lo, hi, required_span(message, font_size)) =~= gaps);
            },
            None => {},
        }
    }
}

} // verus!
