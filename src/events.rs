//! The markdown event stream, and the pass that gives every heading an anchor id.

use vstd::prelude::*;
use vstd::string::StringExecFns;
use pulldown_cmark::{Event, Tag};
use crate::slug::{generate_slug, slug_of};

verus! {

#[verifier::external_type_specification]
#[verifier::external_body]
pub struct ExEvent<'a>(Event<'a>);

#[verifier::external_type_specification]
#[verifier::external_body]
pub struct ExTag<'a>(Tag<'a>);

/// One event of a parsed markdown document, as far as heading anchors care.
/// Everything that is neither a heading boundary nor text is carried through
/// untouched.
pub enum MdEvent {
    /// The start of a heading; `id` is the anchor id it is rendered with,
    /// or `None` to keep the one the heading tag holds.
    HeadingStart { tag: Tag<'static>, id: Option<String> },
    /// The end of a heading.
    HeadingEnd(Event<'static>),
    /// A run of text.
    Text(String),
    /// Any other event.
    Other(Event<'static>),
}

/// The mathematical value of an [`MdEvent`].
pub enum EventView {
    HeadingStart { tag: Tag<'static>, id: Option<Seq<char>> },
    HeadingEnd(Event<'static>),
    Text(Seq<char>),
    Other(Event<'static>),
}

impl View for MdEvent {
    type V = EventView;

    open spec fn view(&self) -> EventView {
        match self {
            MdEvent::HeadingStart { tag, id } => EventView::HeadingStart {
                tag: *tag,
                id: match id {
                    Some(s) => Some(s@),
                    None => None,
                },
            },
            MdEvent::HeadingEnd(e) => EventView::HeadingEnd(*e),
            MdEvent::Text(t) => EventView::Text(t@),
            MdEvent::Other(e) => EventView::Other(*e),
        }
    }
}

/// The views of a sequence of events.
pub open spec fn events_view(s: Seq<MdEvent>) -> Seq<EventView> {
    s.map_values(|e: MdEvent| e@)
}

/// The state of the heading pass between two events.
pub enum SlugState {
    Normal,
    InHeading { tag: Tag<'static>, text: Seq<char>, buffered: Seq<EventView> },
}

/// What a heading that is closed emits before its end event: its start,
/// now carrying the slug of its text as id, then the events inside it.
pub open spec fn flush_heading(tag: Tag<'static>, text: Seq<char>, buffered: Seq<EventView>) -> Seq<
    EventView,
> {
    seq![EventView::HeadingStart { tag, id: Some(slug_of(text)) }] + buffered
}

/// One transition: the next state, and the events emitted.
pub open spec fn slug_step(st: SlugState, e: EventView) -> (SlugState, Seq<EventView>) {
    match st {
        SlugState::Normal => match e {
            EventView::HeadingStart { tag, id } => (
                SlugState::InHeading { tag, text: Seq::empty(), buffered: Seq::empty() },
                Seq::empty(),
            ),
            _ => (SlugState::Normal, seq![e]),
        },
        SlugState::InHeading { tag, text, buffered } => match e {
            EventView::Text(t) => (
                SlugState::InHeading { tag, text: text + t, buffered: buffered.push(e) },
                Seq::empty(),
            ),
            EventView::HeadingEnd(_) => (
                SlugState::Normal,
                flush_heading(tag, text, buffered).push(e),
            ),
            _ => (SlugState::InHeading { tag, text, buffered: buffered.push(e) }, Seq::empty()),
        },
    }
}

/// What the end of the stream emits: a heading still open is closed as if
/// its end had come.
pub open spec fn slug_finish(st: SlugState) -> Seq<EventView> {
    match st {
        SlugState::Normal => Seq::empty(),
        SlugState::InHeading { tag, text, buffered } => flush_heading(tag, text, buffered),
    }
}

/// The events emitted from state `st` on the remaining input `es`.
pub open spec fn slug_run(st: SlugState, es: Seq<EventView>) -> Seq<EventView>
    decreases es.len(),
{
    if es.len() == 0 {
        slug_finish(st)
    } else {
        slug_step(st, es[0]).1 + slug_run(slug_step(st, es[0]).0, es.drop_first())
    }
}

/// The event stream with every heading anchored by the slug of its text.
pub open spec fn slugged(es: Seq<EventView>) -> Seq<EventView> {
    slug_run(SlugState::Normal, es)
}

/// Two headings with the same text get the same id: slugs are not made
/// unique within a document.
pub proof fn lemma_repeated_heading_same_slug(
    first: Tag<'static>,
    second: Tag<'static>,
    first_end: Event<'static>,
    second_end: Event<'static>,
    text: Seq<char>,
)
    ensures
        slugged(
            seq![
                EventView::HeadingStart { tag: first, id: None },
                EventView::Text(text),
                EventView::HeadingEnd(first_end),
                EventView::HeadingStart { tag: second, id: None },
                EventView::Text(text),
                EventView::HeadingEnd(second_end),
            ],
        ) == seq![
            EventView::HeadingStart { tag: first, id: Some(slug_of(text)) },
            EventView::Text(text),
            EventView::HeadingEnd(first_end),
            EventView::HeadingStart { tag: second, id: Some(slug_of(text)) },
            EventView::Text(text),
            EventView::HeadingEnd(second_end),
        ],
{
    let es = seq![
        EventView::HeadingStart { tag: first, id: None },
        EventView::Text(text),
        EventView::HeadingEnd(first_end),
        EventView::HeadingStart { tag: second, id: None },
        EventView::Text(text),
        EventView::HeadingEnd(second_end),
    ];
    let e2 = es.drop_first();
    let e3 = e2.drop_first();
    let e4 = e3.drop_first();
    let e5 = e4.drop_first();
    let e6 = e5.drop_first();
    assert(e6.drop_first() =~= Seq::<EventView>::empty());
    let in2 = SlugState::InHeading { tag: second, text: Seq::empty() + text, buffered: seq![EventView::Text(text)] };
    assert(Seq::<char>::empty() + text =~= text);
    assert(flush_heading(second, text, seq![EventView::Text(text)]) =~= seq![
        EventView::HeadingStart { tag: second, id: Some(slug_of(text)) },
        EventView::Text(text),
    ]);
    assert(slug_run(SlugState::Normal, e6.drop_first()) =~= Seq::<EventView>::empty());
    assert(slug_run(in2, e6) =~= seq![
        EventView::HeadingStart { tag: second, id: Some(slug_of(text)) },
        EventView::Text(text),
        EventView::HeadingEnd(second_end),
    ]);
    let in1 = SlugState::InHeading { tag: first, text: Seq::empty() + text, buffered: seq![EventView::Text(text)] };
    assert(flush_heading(first, text, seq![EventView::Text(text)]) =~= seq![
        EventView::HeadingStart { tag: first, id: Some(slug_of(text)) },
        EventView::Text(text),
    ]);
    assert(slug_run(in1, e3) =~= seq![
        EventView::HeadingStart { tag: first, id: Some(slug_of(text)) },
        EventView::Text(text),
        EventView::HeadingEnd(first_end),
    ] + slug_run(SlugState::Normal, e4));
    let open2 = SlugState::InHeading { tag: second, text: Seq::empty(), buffered: Seq::empty() };
    assert(e5[0] == EventView::Text(text));
    assert(seq![EventView::Text(text)] =~= Seq::<EventView>::empty().push(EventView::Text(text)));
    assert(slug_run(open2, e5) =~= slug_run(in2, e6));
    assert(slug_run(SlugState::Normal, e4) =~= slug_run(open2, e5));
    let open1 = SlugState::InHeading { tag: first, text: Seq::empty(), buffered: Seq::empty() };
    assert(slug_run(open1, e2) =~= slug_run(in1, e3));
    assert(slug_run(SlugState::Normal, es) =~= slug_run(open1, e2));
    assert(slugged(es) =~= seq![
        EventView::HeadingStart { tag: first, id: Some(slug_of(text)) },
        EventView::Text(text),
        EventView::HeadingEnd(first_end),
        EventView::HeadingStart { tag: second, id: Some(slug_of(text)) },
        EventView::Text(text),
        EventView::HeadingEnd(second_end),
    ]);
}

enum HeadingState {
    Normal,
    InHeading { tag: Tag<'static>, text: String, buffered: Vec<MdEvent> },
}

impl View for HeadingState {
    type V = SlugState;

    closed spec fn view(&self) -> SlugState {
        match self {
            HeadingState::Normal => SlugState::Normal,
            HeadingState::InHeading { tag, text, buffered } => SlugState::InHeading {
                tag: *tag,
                text: text@,
                buffered: events_view(buffered@),
            },
        }
    }
}

fn emit_heading(tag: Tag<'static>, text: String, buffered: Vec<MdEvent>, out: &mut Vec<MdEvent>)
    ensures
        events_view(final(out)@) == events_view(old(out)@) + flush_heading(
            tag,
            text@,
            events_view(buffered@),
        ),
{
    let mut buffered = buffered;
    let id = generate_slug(text.as_str());
    let start = MdEvent::HeadingStart { tag, id: Some(id) };
    let ghost before = out@;
    out.push(start);
    let ghost mid = out@;
    let ghost inner = buffered@;
    out.append(&mut buffered);
    assert(events_view(mid) =~= events_view(before).push(start@));
    assert(events_view(out@) =~= events_view(mid) + events_view(inner));
    assert(events_view(out@) =~= events_view(before) + flush_heading(tag, text@, events_view(inner)));
}

fn step_heading(state: HeadingState, e: MdEvent, out: &mut Vec<MdEvent>) -> (r: HeadingState)
    ensures
        r@ == slug_step(state@, e@).0,
        events_view(final(out)@) == events_view(old(out)@) + slug_step(state@, e@).1,
{
    let ghost ev = e@;
    match state {
        HeadingState::Normal => match e {
            MdEvent::HeadingStart { tag, id } => {
                assert(events_view(out@) =~= events_view(out@) + Seq::<EventView>::empty());
                let r = HeadingState::InHeading { tag, text: String::new(), buffered: Vec::new() };
                assert(events_view(Seq::<MdEvent>::empty()) =~= Seq::<EventView>::empty());
                r
            },
            _ => {
                let ghost before = out@;
                out.push(e);
                assert(events_view(out@) =~= events_view(before) + seq![ev]);
                HeadingState::Normal
            },
        },
        HeadingState::InHeading { tag, text, buffered } => {
            let mut text = text;
            let mut buffered = buffered;
            let ghost b0 = buffered@;
            match e {
                MdEvent::Text(t) => {
                    text.append(t.as_str());
                    buffered.push(MdEvent::Text(t));
                    assert(events_view(buffered@) =~= events_view(b0).push(ev));
                    assert(events_view(out@) =~= events_view(out@) + Seq::<EventView>::empty());
                    HeadingState::InHeading { tag, text, buffered }
                },
                MdEvent::HeadingEnd(end) => {
                    emit_heading(tag, text, buffered, out);
                    let ghost mid = out@;
                    out.push(MdEvent::HeadingEnd(end));
                    assert(events_view(out@) =~= events_view(mid).push(ev));
                    HeadingState::Normal
                },
                _ => {
                    buffered.push(e);
                    assert(events_view(buffered@) =~= events_view(b0).push(ev));
                    assert(events_view(out@) =~= events_view(out@) + Seq::<EventView>::empty());
                    HeadingState::InHeading { tag, text, buffered }
                },
            }
        },
    }
}

/// Rewrites a markdown event stream so that every heading start carries the
/// slug of the heading's text as its id. A heading left open at the end of
/// the stream is closed as if its end had come. Slugs that repeat within one
/// document are kept as they are.
pub fn generate_heading_slugs(events: Vec<MdEvent>) -> (r: Vec<MdEvent>)
    ensures
        events_view(r@) == slugged(events_view(events@)),
{
    let ghost input = events@;
    let ghost n = events@.len();
    let mut pending = events;
    let mut reversed: Vec<MdEvent> = Vec::new();
    while pending.len() > 0
        invariant
            pending@ == input.take(pending@.len() as int),
            reversed@.len() + pending@.len() == n,
            n == input.len(),
            forall|j: int| 0 <= j < reversed@.len() ==> reversed@[j] == input[n - 1 - j],
        decreases pending@.len(),
    {
        let e = pending.pop().unwrap();
        reversed.push(e);
        assert(pending@ =~= input.take(pending@.len() as int));
    }
    let mut out: Vec<MdEvent> = Vec::new();
    let mut state = HeadingState::Normal;
    let ghost all = events_view(input);
    assert(events_view(out@) + slug_run(state@, all.subrange(0, n as int)) =~= slugged(all)) by {
        assert(all.subrange(0, n as int) =~= all);
        assert(events_view(out@) =~= Seq::<EventView>::empty());
    }
    while reversed.len() > 0
        invariant
            n == input.len(),
            all == events_view(input),
            reversed@.len() <= n,
            forall|j: int| 0 <= j < reversed@.len() ==> reversed@[j] == input[n - 1 - j],
            events_view(out@) + slug_run(state@, all.subrange(n - reversed@.len(), n as int))
                == slugged(all),
        decreases reversed@.len(),
    {
        let ghost i = n - reversed@.len();
        let ghost rest = all.subrange(i, n as int);
        let e = reversed.pop().unwrap();
        assert(e == input[i]);
        assert(rest[0] == e@);
        assert(rest.drop_first() =~= all.subrange(i + 1, n as int));
        let ghost o0 = events_view(out@);
        let ghost s0 = state@;
        state = step_heading(state, e, &mut out);
        assert(o0 + slug_run(s0, rest) == events_view(out@) + slug_run(state@, all.subrange(i + 1, n as int)));
    }
    match state {
        HeadingState::Normal => {
            assert(events_view(out@) =~= events_view(out@) + Seq::<EventView>::empty());
        },
        HeadingState::InHeading { tag, text, buffered } => {
            emit_heading(tag, text, buffered, &mut out);
        },
    }
    out
}

} // verus!
