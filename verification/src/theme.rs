//! The passive announcement matcher for theme autoplay: it waits for a map
//! theme announcement in the chat stream, reassembles its continuation lines
//! inside a bounded window, extracts the announced URL, chooses a playback
//! backend, and drives the entity registry so that exactly one ambient theme
//! entity exists per map.

use vstd::prelude::*;
use crate::CoordError;
use crate::registry::{ContentSource, EntityRegistry};
use crate::text::{
    strip_color_spec, strip_color, starts_with_ci_spec, starts_with_ci, concat_spec, join_spec,
    join_with, subvec,
};
use crate::query::{continuation_rest, continuation_payload, lines_view};
use crate::urls::{url_match_of, url_parse_ok, find_url_raw, parse_url_ok};

verus! {

/// How long, in ticks (milliseconds), continuations of one announcement are
/// collected. The window closes on this wall-clock deadline or on the first
/// non-continuation line, whichever comes first.
pub const THEME_WINDOW: u64 = 1000;

/// The announcement prefix, compared case-insensitively on the
/// colour-stripped line.
pub open spec fn theme_prefix() -> Seq<char> {
    seq!['m', 'a', 'p', ' ', 't', 'h', 'e', 'm', 'e', ':', ' ']
}

fn theme_prefix_chars() -> (r: Vec<char>)
    ensures
        r@ == theme_prefix(),
{
    let mut v: Vec<char> = Vec::new();
    v.push('m');
    v.push('a');
    v.push('p');
    v.push(' ');
    v.push('t');
    v.push('h');
    v.push('e');
    v.push('m');
    v.push('e');
    v.push(':');
    v.push(' ');
    proof {
        assert(v@ =~= theme_prefix());
    }
    v
}

/// The alternative announcement prefix.
pub open spec fn theme_song_prefix() -> Seq<char> {
    seq!['m', 'a', 'p', ' ', 't', 'h', 'e', 'm', 'e', ' ', 's', 'o', 'n', 'g', ':', ' ']
}

fn theme_song_prefix_chars() -> (r: Vec<char>)
    ensures
        r@ == theme_song_prefix(),
{
    let mut v: Vec<char> = Vec::new();
    v.push('m');
    v.push('a');
    v.push('p');
    v.push(' ');
    v.push('t');
    v.push('h');
    v.push('e');
    v.push('m');
    v.push('e');
    v.push(' ');
    v.push('s');
    v.push('o');
    v.push('n');
    v.push('g');
    v.push(':');
    v.push(' ');
    proof {
        assert(v@ =~= theme_song_prefix());
    }
    v
}

/// Whether a line announces a map theme.
pub open spec fn is_theme_line(line: Seq<char>) -> bool {
    ||| starts_with_ci_spec(strip_color_spec(line), theme_prefix())
    ||| starts_with_ci_spec(strip_color_spec(line), theme_song_prefix())
}

pub fn check_theme_line(line: &Vec<char>) -> (r: bool)
    ensures
        r == is_theme_line(line@),
{
    let stripped = strip_color(line);
    let p1 = theme_prefix_chars();
    if starts_with_ci(&stripped, &p1) {
        return true;
    }
    let p2 = theme_song_prefix_chars();
    starts_with_ci(&stripped, &p2)
}

/// The reassembled announcement: the fragments joined with nothing between
/// them (they are pre-split substrings of one URL-bearing sentence), then
/// stripped of colour codes.
pub open spec fn reassembled(parts: Seq<Seq<char>>) -> Seq<char> {
    strip_color_spec(concat_spec(parts))
}

/// The announcement matcher runs for the lifetime of the session: idle until
/// an announcement arrives, then collecting its continuations.
pub enum ThemeMatcher {
    Idle,
    Collecting { deadline: u64, parts: Vec<Vec<char>> },
}

impl ThemeMatcher {
    /// A window always holds the announcement line itself.
    pub open spec fn wf(self) -> bool {
        self matches ThemeMatcher::Collecting { parts, .. } ==> parts@.len() >= 1
    }

    pub fn new() -> (m: ThemeMatcher)
        ensures
            m == ThemeMatcher::Idle,
            m.wf(),
    {
        ThemeMatcher::Idle
    }

    /// Feeds one chat line at tick `now`. When a window closes, the second
    /// component carries the reassembled announcement to act on.
    pub fn on_line(self, line: &Vec<char>, now: u64) -> (r: (ThemeMatcher, Option<Vec<char>>))
        requires
            self.wf(),
            now <= u64::MAX - THEME_WINDOW,
        ensures
            r.0.wf(),
            match self {
                ThemeMatcher::Idle => if is_theme_line(line@) {
                    &&& r.0 matches ThemeMatcher::Collecting { deadline: d2, parts: p2 } && d2
                        == now + THEME_WINDOW && lines_view(p2@) == seq![line@]
                    &&& r.1 is None
                } else {
                    r.0 == ThemeMatcher::Idle && r.1 is None
                },
                ThemeMatcher::Collecting { deadline, parts } => if now >= deadline {
                    // the window had already expired: it closes, and the
                    // line is not part of it
                    &&& r.0 == ThemeMatcher::Idle
                    &&& r.1 matches Some(m) && m@ == reassembled(lines_view(parts@))
                } else if continuation_rest(line@) is Some {
                    &&& r.0 matches ThemeMatcher::Collecting { deadline: d2, parts: p2 } && d2
                        == deadline && lines_view(p2@) == lines_view(parts@).push(
                        continuation_rest(line@)->Some_0,
                    )
                    &&& r.1 is None
                } else {
                    // any other line closes the window at once
                    &&& r.0 == ThemeMatcher::Idle
                    &&& r.1 matches Some(m) && m@ == reassembled(lines_view(parts@))
                },
            },
    {
        match self {
            ThemeMatcher::Idle => {
                if check_theme_line(line) {
                    let mut parts: Vec<Vec<char>> = Vec::new();
                    let copy = subvec(line, 0, line.len());
                    proof {
                        assert(copy@ =~= line@);
                    }
                    parts.push(copy);
                    proof {
                        assert(lines_view(parts@) =~= seq![line@]);
                    }
                    (ThemeMatcher::Collecting { deadline: now + THEME_WINDOW, parts }, None)
                } else {
                    (ThemeMatcher::Idle, None)
                }
            },
            ThemeMatcher::Collecting { deadline, mut parts } => {
                if now >= deadline {
                    let msg = close_window(parts);
                    (ThemeMatcher::Idle, Some(msg))
                } else {
                    match continuation_payload(line) {
                        Some(rest) => {
                            let ghost p0 = parts@;
                            parts.push(rest);
                            proof {
                                assert(lines_view(parts@) =~= lines_view(p0).push(
                                    continuation_rest(line@)->Some_0,
                                ));
                            }
                            (ThemeMatcher::Collecting { deadline, parts }, None)
                        },
                        None => {
                            let msg = close_window(parts);
                            (ThemeMatcher::Idle, Some(msg))
                        },
                    }
                }
            },
        }
    }

    /// Observes the clock: an expired window closes and hands out the
    /// reassembled announcement.
    pub fn on_tick(self, now: u64) -> (r: (ThemeMatcher, Option<Vec<char>>))
        requires
            self.wf(),
        ensures
            r.0.wf(),
            match self {
                ThemeMatcher::Idle => r.0 == ThemeMatcher::Idle && r.1 is None,
                ThemeMatcher::Collecting { deadline, parts } => if now >= deadline {
                    &&& r.0 == ThemeMatcher::Idle
                    &&& r.1 matches Some(m) && m@ == reassembled(lines_view(parts@))
                } else {
                    r.0 == self && r.1 is None
                },
            },
    {
        match self {
            ThemeMatcher::Idle => (ThemeMatcher::Idle, None),
            ThemeMatcher::Collecting { deadline, parts } => {
                if now >= deadline {
                    let msg = close_window(parts);
                    (ThemeMatcher::Idle, Some(msg))
                } else {
                    (ThemeMatcher::Collecting { deadline, parts }, None)
                }
            },
        }
    }
}

/// Joins the collected fragments with bare concatenation and strips colour
/// codes: the reassembled announcement.
fn close_window(parts: Vec<Vec<char>>) -> (msg: Vec<char>)
    ensures
        msg@ == reassembled(lines_view(parts@)),
{
    let empty: Vec<char> = Vec::new();
    let joined = join_with(&parts, &empty);
    proof {
        assert(joined@ == join_spec(lines_view(parts@), Seq::<char>::empty()));
        assert(empty@ =~= Seq::<char>::empty());
    }
    strip_color(&joined)
}

/// What becomes of a reassembled announcement: nothing when autoplay is off;
/// otherwise the first URL-shaped substring, if it is a well-formed URL.
pub open spec fn theme_url_of(msg: Seq<char>, autoplay: bool) -> Result<
    Option<Seq<char>>,
    CoordError,
> {
    if !autoplay {
        Ok(None)
    } else {
        match url_match_of(msg) {
            None => Err(CoordError::ParseFailure),
            Some(u) => if url_parse_ok(u) {
                Ok(Some(u))
            } else {
                Err(CoordError::ParseFailure)
            },
        }
    }
}

/// Decides what to play for a reassembled announcement: `Ok(None)` when
/// autoplay is disabled, the announced URL when one is found and parses,
/// `ParseFailure` otherwise (logged and ignored by the caller).
pub fn theme_url_decision(msg: &Vec<char>, autoplay: bool) -> (r: Result<
    Option<Vec<char>>,
    CoordError,
>)
    ensures
        match r {
            Ok(u) => match u {
                Some(v) => theme_url_of(msg@, autoplay) == Ok::<Option<Seq<char>>, CoordError>(
                    Some(v@),
                ),
                None => theme_url_of(msg@, autoplay) == Ok::<Option<Seq<char>>, CoordError>(
                    None,
                ),
            },
            Err(e) => e is ParseFailure && theme_url_of(msg@, autoplay) == Err::<
                Option<Seq<char>>,
                CoordError,
            >(CoordError::ParseFailure),
        },
{
    if !autoplay {
        return Ok(None);
    }
    match find_url_raw(msg) {
        None => Err(CoordError::ParseFailure),
        Some(u) => {
            if parse_url_ok(&u) {
                Ok(Some(u))
            } else {
                Err(CoordError::ParseFailure)
            }
        },
    }
}

/// Chooses the playback backend for a theme URL from the outcomes of the
/// backend constructors, tried in priority order: the Youtube parser first,
/// then the generic media parser; if both rejected the URL the error names
/// both rejection reasons.
pub fn select_backend(
    youtube_err: Option<Vec<char>>,
    media_err: Option<Vec<char>>,
    volume: u32,
) -> (r: Result<ContentSource, CoordError>)
    ensures
        match r {
            Ok(src) => if youtube_err is None {
                src == (ContentSource::Youtube { volume })
            } else {
                media_err is None && src == (ContentSource::Media { volume })
            },
            Err(e) => {
                &&& youtube_err is Some && media_err is Some
                &&& e matches CoordError::BackendConstruction { youtube, media }
                    && youtube@ == youtube_err->Some_0@ && media@ == media_err->Some_0@
            },
        },
{
    match youtube_err {
        None => Ok(ContentSource::Youtube { volume }),
        Some(ye) => match media_err {
            None => Ok(ContentSource::Media { volume }),
            Some(me) => Err(CoordError::BackendConstruction { youtube: ye, media: me }),
        },
    }
}

/// The distinguished "current map theme" cell: which entity id hosts the
/// ambient theme player, if any. Reset on every new map.
pub struct ThemeState {
    current: Option<usize>,
}

impl ThemeState {
    pub closed spec fn current_spec(self) -> Option<usize> {
        self.current
    }

    pub fn new() -> (r: Self)
        ensures
            r.current_spec() is None,
    {
        ThemeState { current: None }
    }

    /// A new map was loaded: the next announcement creates a fresh entity
    /// instead of reusing the previous map's.
    pub fn on_new_map_loaded(&mut self)
        ensures
            final(self).current_spec() is None,
    {
        self.current = None;
    }

    pub fn current(&self) -> (r: Option<usize>)
        ensures
            r == self.current_spec(),
    {
        self.current
    }
}

/// Attaches a chosen theme player to the world: while the map already has a
/// theme entity its content source is updated in place (same id, no second
/// entity); otherwise a new zero-scale, one-frame-per-second, one-by-one
/// entity is created and recorded as the current theme. Either way the
/// entity ends up not relayed to other players and with ambient (global)
/// volume. Fails with `NotFound` when the recorded theme entity no longer
/// exists; nothing is changed then.
pub fn apply_theme(
    reg: &mut EntityRegistry,
    theme: &mut ThemeState,
    source: ContentSource,
) -> (r: Result<usize, CoordError>)
    requires
        old(reg).wf(),
        old(reg).spec_next_id() < usize::MAX,
    ensures
        final(reg).wf(),
        match r {
            Ok(id) => {
                &&& final(theme).current_spec() == Some(id)
                &&& final(reg).spec_find(id) matches Some(e) && e.source == source
                    && !e.send_to_others && e.global_volume
                &&& match old(theme).current_spec() {
                    Some(p) => {
                        &&& id == p
                        &&& final(reg).entities_seq().len() == old(reg).entities_seq().len()
                    },
                    None => {
                        &&& !old(reg).contains_id(id)
                        &&& final(reg).entities_seq().len() == old(reg).entities_seq().len() + 1
                        &&& (final(reg).spec_find(id)->Some_0).scale_milli == 0
                        &&& (final(reg).spec_find(id)->Some_0).frame_rate == 1
                        &&& (final(reg).spec_find(id)->Some_0).resolution == Some((1u16, 1u16))
                    },
                }
                &&& forall|q: usize| q != id ==> final(reg).spec_find(q) == old(reg).spec_find(
                    q,
                )
                &&& final(reg).spec_next_id() == old(reg).spec_next_id() + (
                if old(theme).current_spec() is Some {
                    0int
                } else {
                    1int
                })
            },
            Err(e) => {
                &&& e is NotFound
                &&& old(theme).current_spec() matches Some(p) && !old(reg).contains_id(p)
                &&& *final(reg) == *old(reg)
                &&& *final(theme) == *old(theme)
            },
        },
{
    let cur = theme.current();
    let id: usize;
    match cur {
        Some(p) => {
            match reg.update_source(p, source) {
                Ok(()) => {},
                Err(e) => {
                    return Err(e);
                },
            }
            id = p;
        },
        None => {
            id = reg.create(source, 1, Some((1u16, 1u16)));
            match reg.set_scale(id, 0) {
                Ok(()) => {},
                Err(_) => {
                    proof {
                        assert(false);
                    }
                    return Err(CoordError::NotFound);
                },
            }
        },
    }
    theme.current = Some(id);
    match reg.set_relay_and_volume_scope(id, false, true) {
        Ok(()) => {},
        Err(_) => {
            proof {
                assert(false);
            }
            return Err(CoordError::NotFound);
        },
    }
    Ok(id)
}

} // verus!
