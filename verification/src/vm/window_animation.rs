//! Message windows that were opening or closing when the game was saved.

use vstd::prelude::*;

verus! {

/// The place of a child of a stage.
#[derive(Debug, Clone, Copy, PartialEq, Eq, Structural)]
pub struct ChildPlace {
    pub form: u32,
    pub stage: i64,
    pub index: usize,
}

/// An animation of a window as a save holds it. A negative type is none.
#[derive(Debug, Clone, Copy, PartialEq, Eq, Structural)]
pub struct SavedAnime {
    pub anime_type: i64,
    pub duration: i64,
    pub start: i64,
}

/// What a message window knows of its animations.
#[derive(Debug, Clone, Copy, PartialEq, Eq, Structural)]
pub struct WindowWork {
    pub time: i64,
    pub open_anime: Option<SavedAnime>,
    pub close_anime: Option<SavedAnime>,
}

impl WindowWork {
    /// The animation for one direction.
    pub open spec fn anime(&self, opening: bool) -> Option<SavedAnime> {
        if opening {
            self.open_anime
        } else {
            self.close_anime
        }
    }

    /// The window with another animation for one direction.
    pub open spec fn with_anime(&self, opening: bool, anime: Option<SavedAnime>) -> WindowWork {
        if opening {
            WindowWork { open_anime: anime, ..*self }
        } else {
            WindowWork { close_anime: anime, ..*self }
        }
    }
}

/// How long a saved window animation had run, in the engine's 32 bits.
pub open spec fn elapsed(time: i32, start: i32) -> int {
    if time.wrapping_sub(start) >= 0 {
        time.wrapping_sub(start) as int
    } else {
        0
    }
}

/// How long a saved window animation had run.
pub fn animation_elapsed(time: i32, start: i32) -> (ms: i32)
    ensures
        ms == elapsed(time, start),
{
    let ms: i32 = time.wrapping_sub(start);
    if ms >= 0 {
        ms
    } else {
        0
    }
}

/// An animation that is taken up again.
#[derive(Debug, Clone, Copy, PartialEq, Eq, Structural)]
pub struct Restart {
    pub anime_type: i64,
    pub duration: i64,
    pub elapsed: i64,
}

/// The animation that is taken up for a window when the continuation starts.
pub open spec fn restart_of(window: Option<WindowWork>, opening: bool) -> Option<Restart> {
    match window {
        Some(w) => match w.anime(opening) {
            Some(a) => if a.anime_type >= 0 {
                Some(
                    Restart {
                        anime_type: a.anime_type,
                        duration: a.duration,
                        elapsed: elapsed(w.time as i32, a.start as i32) as i64,
                    },
                )
            } else {
                None
            },
            None => None,
        },
        None => None,
    }
}

/// Whether a window's animation is asked after: the window is there, and when
/// the continuation starts, an animation is taken up.
pub open spec fn driven(window: Option<WindowWork>, opening: bool, started: bool) -> bool {
    window is Some && (started || restart_of(window, opening) is Some)
}

/// A window after its animation was asked after. One that does not run any
/// more is marked as finished.
pub open spec fn window_after(
    window: Option<WindowWork>,
    opening: bool,
    started: bool,
    running: bool,
) -> Option<WindowWork> {
    match window {
        Some(w) => if driven(window, opening, started) && !running {
            Some(
                w.with_anime(
                    opening,
                    Some(SavedAnime { anime_type: (-1) as i64, duration: 0, start: 0 }),
                ),
            )
        } else {
            window
        },
        None => None,
    }
}

/// Whether the animation of some window goes on.
pub open spec fn some_runs(
    windows: Seq<Option<WindowWork>>,
    opening: bool,
    started: bool,
    running: Seq<bool>,
) -> bool {
    exists|i: int|
        0 <= i < windows.len() && driven(#[trigger] windows[i], opening, started) && running[i]
}

/// The animation that is taken up for a window when the continuation starts.
pub fn restart_animation(window: Option<WindowWork>, opening: bool) -> (r: Option<Restart>)
    ensures
        r == restart_of(window, opening),
{
    match window {
        Some(w) => {
            let anime = if opening {
                w.open_anime
            } else {
                w.close_anime
            };
            match anime {
                Some(a) => if a.anime_type >= 0 {
                    Some(
                        Restart {
                            anime_type: a.anime_type,
                            duration: a.duration,
                            elapsed: start_point(w.time, a.start) as i64,
                        },
                    )
                } else {
                    None
                },
                None => None,
            }
        },
        None => None,
    }
}

#[verifier::truncate]
fn start_point(time: i64, start: i64) -> (ms: i32)
    ensures
        ms == elapsed(time as i32, start as i32),
{
    animation_elapsed(time as i32, start as i32)
}

/// Whether a window's animation is asked after.
pub fn is_driven(window: Option<WindowWork>, opening: bool, started: bool) -> (r: bool)
    ensures
        r == driven(window, opening, started),
{
    window.is_some() && (started || restart_animation(window, opening).is_some())
}

/// Takes in which animations go on. A window whose animation does not is
/// marked as finished. The continuation has completed when none goes on.
pub fn poll_native_mwnd(
    windows: &mut Vec<Option<WindowWork>>,
    opening: bool,
    started: bool,
    running: &Vec<bool>,
) -> (completed: bool)
    requires
        running@.len() == old(windows)@.len(),
    ensures
        final(windows)@.len() == old(windows)@.len(),
        forall|i: int|
            0 <= i < old(windows)@.len() ==> #[trigger] final(windows)@[i] == window_after(
                old(windows)@[i],
                opening,
                started,
                running@[i],
            ),
        completed == !some_runs(old(windows)@, opening, started, running@),
{
    let mut active: bool = false;
    let mut i: usize = 0;
    let ghost before = windows@;
    while i < windows.len()
        invariant
            before == old(windows)@,
            windows@.len() == before.len(),
            running@.len() == before.len(),
            i <= windows@.len(),
            forall|k: int|
                0 <= k < i ==> #[trigger] windows@[k] == window_after(
                    before[k],
                    opening,
                    started,
                    running@[k],
                ),
            forall|k: int| i <= k < windows@.len() ==> #[trigger] windows@[k] == before[k],
            active == exists|k: int|
                0 <= k < i && driven(#[trigger] before[k], opening, started) && running@[k],
        decreases windows@.len() - i,
    {
        let window = windows[i];
        if is_driven(window, opening, started) {
            if running[i] {
                active = true;
                proof {
                    assert(driven(before[i as int], opening, started) && running@[i as int]);
                }
            } else if let Some(w) = window {
                let none = Some(SavedAnime { anime_type: -1, duration: 0, start: 0 });
                let after = if opening {
                    WindowWork { open_anime: none, ..w }
                } else {
                    WindowWork { close_anime: none, ..w }
                };
                windows.set(i, Some(after));
            }
        }
        i = i + 1;
    }
    !active
}

/// The windows of a stage.
pub open spec fn places_of(form: u32, stage: i64, n: int) -> Seq<ChildPlace> {
    Seq::new(n as nat, |i: int| ChildPlace { form, stage, index: i as usize })
}

/// The windows of all stages, by how many each has.
pub open spec fn all_places(form: u32, lists: Seq<(i64, usize)>) -> Seq<ChildPlace>
    decreases lists.len(),
{
    if lists.len() == 0 {
        Seq::empty()
    } else {
        all_places(form, lists.drop_last()) + places_of(
            form,
            lists.last().0,
            lists.last().1 as int,
        )
    }
}

/// The windows that a continuation drives: all of the present stages, or the
/// one that its path names.
pub fn animated_windows(
    all: bool,
    form: u32,
    lists: &Vec<(i64, usize)>,
    named: Option<ChildPlace>,
) -> (r: Vec<ChildPlace>)
    ensures
        r@ == (if all {
            all_places(form, lists@)
        } else {
            match named {
                Some(place) => seq![place],
                None => Seq::empty(),
            }
        }),
{
    let mut r: Vec<ChildPlace> = Vec::new();
    if !all {
        if let Some(place) = named {
            r.push(place);
        }
        proof {
            match named {
                Some(place) => assert(r@ =~= seq![place]),
                None => assert(r@ =~= Seq::empty()),
            }
        }
        return r;
    }
    let mut i: usize = 0;
    proof {
        assert(lists@.take(0) =~= Seq::<(i64, usize)>::empty());
        assert(r@ =~= all_places(form, lists@.take(0)));
    }
    while i < lists.len()
        invariant
            i <= lists@.len(),
            r@ == all_places(form, lists@.take(i as int)),
        decreases lists@.len() - i,
    {
        let stage: i64 = lists[i].0;
        let n: usize = lists[i].1;
        let ghost before = r@;
        let mut k: usize = 0;
        proof {
            assert(r@ =~= before + places_of(form, stage, 0));
        }
        while k < n
            invariant
                k <= n,
                r@ == before + places_of(form, stage, k as int),
            decreases n - k,
        {
            r.push(ChildPlace { form, stage, index: k });
            k = k + 1;
            proof {
                assert(r@ =~= before + places_of(form, stage, k as int));
            }
        }
        proof {
            let taken = lists@.take(i + 1);
            assert(taken.drop_last() =~= lists@.take(i as int));
            assert(taken.last() == lists@[i as int]);
        }
        i = i + 1;
    }
    proof {
        assert(lists@.take(i as int) =~= lists@);
    }
    r
}

/// Windows whose animations do not go on are finished after one round, so that
/// a next start takes nothing up.
pub proof fn finished_windows_are_not_taken_up_again(
    window: Option<WindowWork>,
    opening: bool,
    started: bool,
)
    requires
        driven(window, opening, started),
    ensures
        restart_of(window_after(window, opening, started, false), opening) is None,
        restart_of(window_after(window, opening, started, false), !opening) == restart_of(
            window,
            !opening,
        ),
{
}

/// A window goes on where it was: as much of its time is over as passed since it began, and
/// none where the clock stands before its beginning.
pub proof fn windows_go_on_where_they_were(w: WindowWork, opening: bool)
    requires
        i32::MIN <= w.time <= i32::MAX,
        w.anime(opening) matches Some(a) ==> i32::MIN <= a.start <= i32::MAX,
    ensures
        w.anime(opening) is None ==> restart_of(Some(w), opening) is None,
        w.anime(opening) matches Some(a) ==> {
            &&& a.anime_type < 0 ==> restart_of(Some(w), opening) is None
            &&& a.anime_type >= 0 ==> (restart_of(Some(w), opening) matches Some(r) && {
                &&& r.anime_type == a.anime_type
                &&& r.duration == a.duration
                &&& r.elapsed >= 0
                &&& 0 <= w.time - a.start <= i32::MAX ==> r.elapsed == w.time - a.start
                &&& 0 < a.start - w.time <= i32::MAX ==> r.elapsed == 0
            })
        },
{
}

/// Opening and closing have a time each: what is noted for one leaves the other as it was.
pub proof fn opening_and_closing_are_apart(w: WindowWork, opening: bool, anime: Option<SavedAnime>)
    ensures
        w.with_anime(opening, anime).anime(opening) == anime,
        w.with_anime(opening, anime).anime(!opening) == w.anime(!opening),
        w.with_anime(opening, anime).time == w.time,
        w.anime(true) == w.open_anime,
        w.anime(false) == w.close_anime,
{
}

} // verus!
