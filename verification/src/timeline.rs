//! An article's tracker timeline: rename history and the event that made
//! the article published.
use vstd::prelude::*;

verus! {

/// One timeline event of an article, reduced to the fields the pipeline
/// reads: the old title of a rename, the name of an added label, and the
/// event's raw timestamp.
pub struct TimelineEvent {
    pub rename_from: Option<String>,
    pub label_name: Option<String>,
    pub created_at: Option<String>,
}

/// Whether an event is the article's "became published" labeling event.
pub open spec fn is_publish_event(e: TimelineEvent) -> bool {
    match e.label_name {
        Some(l) => l@ == "article"@,
        None => false,
    }
}

/// The ordered old titles that the timeline's rename events report.
pub open spec fn rename_froms_of(evs: Seq<TimelineEvent>) -> Seq<Seq<char>>
    decreases evs.len(),
{
    if evs.len() == 0 {
        Seq::empty()
    } else {
        (match evs[0].rename_from {
            Some(t) => seq![t@],
            None => Seq::empty(),
        }) + rename_froms_of(evs.drop_first())
    }
}

/// The timestamp carried by the last "became published" labeling event.
pub open spec fn publish_stamp_of(evs: Seq<TimelineEvent>) -> Option<Seq<char>>
    decreases evs.len(),
{
    if evs.len() == 0 {
        None
    } else if is_publish_event(evs.last()) {
        match evs.last().created_at {
            Some(s) => Some(s@),
            None => None,
        }
    } else {
        publish_stamp_of(evs.drop_last())
    }
}

/// Collects the old titles of the timeline's rename events, in timeline
/// order.
pub fn rename_froms(events: &Vec<TimelineEvent>) -> (r: Vec<String>)
    ensures
        r@.map_values(|t: String| t@) == rename_froms_of(events@),
{
    let mut out: Vec<String> = Vec::new();
    let mut i: usize = 0;
    proof {
        assert(events@.skip(0) =~= events@);
        assert(out@.map_values(|t: String| t@) =~= Seq::<Seq<char>>::empty());
    }
    while i < events.len()
        invariant
            0 <= i <= events.len(),
            rename_froms_of(events@) == out@.map_values(|t: String| t@) + rename_froms_of(
                events@.skip(i as int),
            ),
        decreases events.len() - i,
    {
        let ghost rest = events@.skip(i as int);
        let ghost prev = out@;
        proof {
            assert(rest[0] == events@[i as int]);
            assert(rest.drop_first() =~= events@.skip(i + 1));
        }
        match &events[i].rename_from {
            Some(t) => {
                out.push(t.clone());
                proof {
                    assert(out@.map_values(|t: String| t@) =~= prev.map_values(|t: String| t@)
                        + seq![events@[i as int].rename_from->Some_0@]);
                }
            },
            None => {
                proof {
                    assert(out@.map_values(|t: String| t@) + Seq::<Seq<char>>::empty() =~= out@.map_values(
                        |t: String| t@,
                    ));
                }
            },
        }
        i = i + 1;
    }
    proof {
        assert(events@.skip(events@.len() as int) =~= Seq::<TimelineEvent>::empty());
        assert(out@.map_values(|t: String| t@) + Seq::<Seq<char>>::empty() =~= out@.map_values(
            |t: String| t@,
        ));
    }
    out
}

/// The article's display timestamp: that of the last "became published"
/// labeling event, or `fallback` (the article's creation time) when no such
/// event carries one.
pub fn publish_timestamp(events: &Vec<TimelineEvent>, fallback: &str) -> (r: String)
    ensures
        r@ == (match publish_stamp_of(events@) {
            Some(t) => t,
            None => fallback@,
        }),
{
    let mut publish: Option<String> = None;
    let mut i: usize = 0;
    let article_label = String::from_str("article");
    proof {
        assert(events@.take(0) =~= Seq::<TimelineEvent>::empty());
    }
    while i < events.len()
        invariant
            0 <= i <= events.len(),
            (match publish {
                Some(ref s) => Some(s@),
                None => None,
            }) == publish_stamp_of(events@.take(i as int)),
            article_label@ == "article"@,
        decreases events.len() - i,
    {
        let e = &events[i];
        let is_pub = match &e.label_name {
            Some(l) => *l == article_label,
            None => false,
        };
        if is_pub {
            publish = match &e.created_at {
                Some(s) => Some(s.clone()),
                None => None,
            };
        }
        proof {
            assert(events@.take(i + 1).last() == events@[i as int]);
            assert(events@.take(i + 1).drop_last() =~= events@.take(i as int));
        }
        i = i + 1;
    }
    proof {
        assert(events@.take(events@.len() as int) =~= events@);
    }
    match publish {
        Some(t) => t,
        None => String::from_str(fallback),
    }
}

} // verus!
