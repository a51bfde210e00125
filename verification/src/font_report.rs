//! What is told of the faces that characters are drawn from.
//!
//! A character is reported once while the primary face stays the same, and only
//! so many of them. With one of them, the counts are summed up now and then.

use vstd::prelude::*;
use crate::font_fallback;
use crate::font_fallback::{FallbackFace, FallbackState, ResolveStep, RESOLVE_CACHE_CAP};
use crate::number_text;
use crate::number_text::decimal_u64;
use crate::table;
use crate::table::TableKey;

verus! {

broadcast use vstd::std_specs::hash::group_hash_axioms;

/// After how many characters the counts are summed up.
pub const STATS_LOG_INTERVAL: u64 = 512;

/// What is to be told of one character.
#[derive(Debug)]
pub struct FontReport {
    /// The name of the face that the character is drawn from.
    pub source: Option<String>,
    /// The line with the counts.
    pub summary: Option<String>,
}

/// The name of a face: the primary one, or its place in the chain and what it
/// is called there.
pub open spec fn source_text(chain: Seq<FallbackFace>, face: int) -> Seq<char> {
    if face == 0 {
        "primary"@
    } else if face <= chain.len() {
        "fallback"@ + number_text::decimal(face) + " "@ + chain[face - 1].source@
    } else {
        "fallback"@ + number_text::decimal(face)
    }
}

/// The counts of the faces of the chain, with spaces between them.
pub open spec fn hits_text(hits: Seq<u64>) -> Seq<char>
    decreases hits.len(),
{
    if hits.len() == 0 {
        Seq::empty()
    } else {
        let front = if hits.len() == 1 {
            Seq::empty()
        } else {
            hits_text(hits.drop_last()) + " "@
        };
        front + "fallback"@ + number_text::decimal(hits.len() as int) + "="@ + number_text::decimal(
            hits.last() as int,
        )
    }
}

/// The line with the counts.
pub open spec fn summary_text(st: FallbackState) -> Seq<char> {
    "[aetherkiri-font] stats gen="@ + number_text::decimal(st.generation as int) + " primary="@
        + number_text::decimal(st.stats_primary as int) + " "@ + hits_text(st.stats_face_hits@)
        + " miss="@ + number_text::decimal(st.stats_miss as int) + " chars="@
        + number_text::decimal(st.resolved_chars as int)
}

/// The names of the faces, with commas between them.
pub open spec fn sources_text(chain: Seq<FallbackFace>) -> Seq<char>
    decreases chain.len(),
{
    if chain.len() == 0 {
        Seq::empty()
    } else if chain.len() == 1 {
        chain[0].source@
    } else {
        sources_text(chain.drop_last()) + ", "@ + chain.last().source@
    }
}

/// The line that tells of a new chain.
pub open spec fn notice_text(st: FallbackState) -> Seq<char> {
    "[aetherkiri-font] glyph fallback chain gen="@ + number_text::decimal(st.generation as int)
        + " faces="@ + number_text::decimal(st.chain@.len() as int) + " ["@ + sources_text(st.chain@)
        + "]"@
}

/// Whether a character is to be reported.
pub open spec fn is_due(st: FallbackState, enabled: bool, ch: char) -> bool {
    enabled && st.logged_chars@.len() < RESOLVE_CACHE_CAP && !st.logged_chars@.contains(ch as u32)
}

/// What becomes of the state when the new choice of `face` is told, and what
/// is told.
pub open spec fn reported(
    before: FallbackState,
    after: FallbackState,
    enabled: bool,
    face: u32,
    ch: char,
    report: FontReport,
) -> bool {
    let due = is_due(before, enabled, ch);
    &&& after.logged_chars@ == (if due {
        before.logged_chars@.insert(ch as u32)
    } else {
        before.logged_chars@
    })
    &&& after == (FallbackState { logged_chars: after.logged_chars, ..before })
    &&& match report.source {
        Some(text) => due && text@ == source_text(before.chain@, face as int),
        None => !due,
    }
    &&& match report.summary {
        Some(text) => due && before.resolved_chars % STATS_LOG_INTERVAL == 0 && text@
            == summary_text(before),
        None => !(due && before.resolved_chars % STATS_LOG_INTERVAL == 0),
    }
}

/// What becomes of the state when the face for a character is asked for and a
/// new choice is told.
pub open spec fn resolved_and_reported(
    before: FallbackState,
    after: FallbackState,
    primary: Seq<u8>,
    ch: char,
    enabled: bool,
    step: ResolveStep,
    report: FontReport,
) -> bool {
    exists|chosen: FallbackState| #[trigger]
        font_fallback::face_resolved(before, chosen, primary, ch, step) && match step {
            ResolveStep::Face(face) if !table::has_key(before.resolve@, ch) => reported(
                chosen,
                after,
                enabled,
                face,
                ch,
                report,
            ),
            _ => after == chosen && report.source is None && report.summary is None,
        }
}

/// A character that has been reported is not reported again while the
/// characters that were reported are known, and each report makes one more of
/// them known.
pub proof fn characters_are_reported_once(
    before: FallbackState,
    after: FallbackState,
    enabled: bool,
    face: u32,
    ch: char,
    report: FontReport,
    later: FallbackState,
    last: FallbackState,
    later_enabled: bool,
    later_face: u32,
    later_report: FontReport,
)
    requires
        reported(before, after, enabled, face, ch, report),
        report.source is Some,
        after.logged_chars@.subset_of(later.logged_chars@),
        reported(later, last, later_enabled, later_face, ch, later_report),
    ensures
        !before.logged_chars@.contains(ch as u32),
        later_report.source is None,
        later_report.summary is None,
        last.logged_chars@ == later.logged_chars@,
{
    assert(after.logged_chars@.contains(ch as u32));
}

/// No step of resolving makes a reported character unknown, and never more
/// than the bound are reported.
pub proof fn reported_characters_stay_known(
    before: FallbackState,
    after: FallbackState,
    primary: Seq<u8>,
    ch: char,
    enabled: bool,
    step: ResolveStep,
    report: FontReport,
)
    requires
        before.logged_chars@.finite(),
        before.logged_chars@.len() <= RESOLVE_CACHE_CAP,
        resolved_and_reported(before, after, primary, ch, enabled, step, report),
    ensures
        before.logged_chars@.subset_of(after.logged_chars@),
        after.logged_chars@.len() <= RESOLVE_CACHE_CAP,
        report.source is Some ==> after.logged_chars@.len() == before.logged_chars@.len() + 1,
{
}

fn face_source(chain: &Vec<FallbackFace>, face: u32) -> (r: String)
    ensures
        r@ == source_text(chain@, face as int),
{
    if face == 0 {
        return "primary".to_owned();
    }
    let mut r = "fallback".to_owned();
    r.append(decimal_u64(face as u64).as_str());
    let i: usize = face as usize - 1;
    if i < chain.len() {
        r.append(" ");
        r.append(chain[i].source.as_str());
    }
    r
}

fn append_hits(r: &mut String, hits: &Vec<u64>)
    ensures
        final(r)@ == old(r)@ + hits_text(hits@),
{
    let ghost front = r@;
    let mut i: usize = 0;
    proof {
        assert(hits@.take(0) =~= Seq::<u64>::empty());
        assert(r@ =~= front + hits_text(hits@.take(0)));
    }
    while i < hits.len()
        invariant
            i <= hits@.len(),
            r@ == front + hits_text(hits@.take(i as int)),
        decreases hits@.len() - i,
    {
        proof {
            let taken = hits@.take(i + 1);
            assert(taken.drop_last() =~= hits@.take(i as int));
            assert(taken.last() == hits@[i as int]);
        }
        if i > 0 {
            r.append(" ");
        }
        r.append("fallback");
        r.append(decimal_u64(i as u64 + 1).as_str());
        r.append("=");
        r.append(decimal_u64(hits[i]).as_str());
        proof {
            assert(r@ =~= front + hits_text(hits@.take(i + 1)));
        }
        i = i + 1;
    }
    proof {
        assert(hits@.take(i as int) =~= hits@);
    }
}

impl FallbackState {
    fn summary(&self) -> (r: String)
        ensures
            r@ == summary_text(*self),
    {
        let mut r = "[aetherkiri-font] stats gen=".to_owned();
        r.append(decimal_u64(self.generation).as_str());
        r.append(" primary=");
        r.append(decimal_u64(self.stats_primary).as_str());
        r.append(" ");
        append_hits(&mut r, &self.stats_face_hits);
        r.append(" miss=");
        r.append(decimal_u64(self.stats_miss).as_str());
        r.append(" chars=");
        r.append(decimal_u64(self.resolved_chars).as_str());
        r
    }

    /// The line that tells of a new chain.
    pub fn chain_notice(&self) -> (r: String)
        ensures
            r@ == notice_text(*self),
    {
        let mut r = "[aetherkiri-font] glyph fallback chain gen=".to_owned();
        r.append(decimal_u64(self.generation).as_str());
        r.append(" faces=");
        r.append(decimal_u64(self.chain.len() as u64).as_str());
        r.append(" [");
        let ghost front = r@;
        let mut i: usize = 0;
        proof {
            assert(self.chain@.take(0) =~= Seq::<FallbackFace>::empty());
            assert(r@ =~= front + sources_text(self.chain@.take(0)));
        }
        while i < self.chain.len()
            invariant
                i <= self.chain@.len(),
                r@ == front + sources_text(self.chain@.take(i as int)),
            decreases self.chain@.len() - i,
        {
            proof {
                let taken = self.chain@.take(i + 1);
                assert(taken.drop_last() =~= self.chain@.take(i as int));
                assert(taken.last() == self.chain@[i as int]);
            }
            if i > 0 {
                r.append(", ");
            }
            r.append(self.chain[i].source.as_str());
            proof {
                assert(r@ =~= front + sources_text(self.chain@.take(i + 1)));
            }
            i = i + 1;
        }
        r.append("]");
        proof {
            assert(self.chain@.take(i as int) =~= self.chain@);
        }
        r
    }

    /// Notes that a new choice is told, and says what to tell. `enabled` says
    /// whether anything is told at all.
    pub fn report_choice(&mut self, enabled: bool, face: u32, ch: char) -> (r: FontReport)
        ensures
            reported(*old(self), *final(self), enabled, face, ch, r),
    {
        let number: u32 = ch as u32;
        if !enabled || self.logged_chars.len() >= RESOLVE_CACHE_CAP || self.logged_chars.contains(
            &number,
        ) {
            return FontReport { source: None, summary: None };
        }
        self.logged_chars.insert(number);
        let summary = if self.resolved_chars % STATS_LOG_INTERVAL == 0 {
            Some(self.summary())
        } else {
            None
        };
        FontReport { source: Some(face_source(&self.chain, face)), summary }
    }

    /// Chooses the face for a character, and says what to tell of a choice
    /// that was not made before.
    pub fn resolve_and_report(&mut self, primary: &[u8], ch: char, enabled: bool) -> (r: (
        ResolveStep,
        FontReport,
    ))
        requires
            old(self).resolve_stamp < u64::MAX,
            old(self).chain@.len() < u32::MAX,
        ensures
            resolved_and_reported(*old(self), *final(self), primary@, ch, enabled, r.0, r.1),
    {
        let known: bool = self.knows(ch);
        let step = self.resolve_face(primary, ch);
        let ghost chosen = *self;
        let report = match step {
            ResolveStep::Face(face) => if known {
                FontReport { source: None, summary: None }
            } else {
                self.report_choice(enabled, face, ch)
            },
            _ => FontReport { source: None, summary: None },
        };
        proof {
            assert(font_fallback::face_resolved(*old(self), chosen, primary@, ch, step));
        }
        (step, report)
    }
}

} // verus!
