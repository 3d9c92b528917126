//! Which animation of a model plays, and how far it is.

use crate::common::{AnimationClip, ClipView};
use crate::math::{below, f32_lt, F32Bits, F32_ONE, F32_ZERO};
use crate::records::views;
use vstd::prelude::*;
use vstd::string::StringExecFns;

verus! {

/// The clips of a list by their names. Of several with the same name the last one counts.
pub open spec fn by_name(clips: Seq<ClipView>) -> Map<Seq<char>, ClipView>
    decreases clips.len(),
{
    if clips.len() == 0 {
        Map::empty()
    } else {
        by_name(clips.drop_last()).insert(clips.last().name, clips.last())
    }
}

/// No two clips have the same name.
pub open spec fn distinct_names(clips: Seq<ClipView>) -> bool {
    forall|i: int, j: int|
        0 <= i < j < clips.len() ==> (#[trigger] clips[i]).name != (#[trigger] clips[j]).name
}

/// Whether `part` occurs in `text`.
pub open spec fn occurs_in(part: Seq<char>, text: Seq<char>) -> bool {
    exists|at: int|
        0 <= at <= text.len() - part.len() && part == #[trigger] text.subrange(
            at,
            at + part.len(),
        )
}

/// What `str::to_lowercase` makes of a text.
pub uninterp spec fn lowercase(text: Seq<char>) -> Seq<char>;

/// `str::to_lowercase`: the text in lower case, under the name `lowercase`.
#[verifier::external_body]
fn to_lowercase(text: &str) -> (out: String)
    ensures
        out@ == lowercase(text@),
{
    text.to_lowercase()
}

/// `str::contains` with a text to look for: whether that text occurs in the other.
#[verifier::external_body]
fn contains_text(text: &str, part: &str) -> (out: bool)
    ensures
        out == occurs_in(part@, text@),
{
    text.contains(part)
}

/// The first of the names in which `part` occurs.
pub fn first_containing(names: &[String], part: &str) -> (out: Option<usize>)
    ensures
        match out {
            Some(i) => {
                &&& i < names@.len()
                &&& occurs_in(part@, names@[i as int]@)
                &&& forall|j: int| 0 <= j < i ==> !occurs_in(part@, (#[trigger] names@[j])@)
            },
            None => forall|j: int|
                0 <= j < names@.len() ==> !occurs_in(part@, (#[trigger] names@[j])@),
        },
{
    let mut i: usize = 0;
    while i < names.len()
        invariant
            i <= names@.len(),
            forall|j: int| 0 <= j < i ==> !occurs_in(part@, (#[trigger] names@[j])@),
        decreases names@.len() - i,
    {
        if contains_text(names[i].as_str(), part) {
            return Some(i);
        }
        i = i + 1;
    }
    None
}

/// The animations of one model, and the one that plays.
pub struct AnimationPlayer {
    clips: Vec<AnimationClip>,
    current: Option<String>,
    time: F32Bits,
    playing: bool,
    pub looping: bool,
    pub speed: F32Bits,
}

pub struct PlayerView {
    pub clips: Map<Seq<char>, ClipView>,
    pub current: Option<Seq<char>>,
    pub time: F32Bits,
    pub playing: bool,
    pub looping: bool,
    pub speed: F32Bits,
}

impl PlayerView {
    /// A player that has not played anything yet.
    pub open spec fn fresh(clips: Seq<ClipView>) -> PlayerView {
        PlayerView {
            clips: by_name(clips),
            current: None,
            time: F32_ZERO,
            playing: false,
            looping: true,
            speed: F32_ONE,
        }
    }

    /// After `play` of that name: a clip that is there starts from its beginning.
    pub open spec fn play(self, name: Seq<char>) -> PlayerView {
        if self.clips.contains_key(name) {
            PlayerView { current: Some(name), time: F32_ZERO, playing: true, ..self }
        } else {
            self
        }
    }

    /// Stopped, and back at the beginning.
    pub open spec fn stopped(self) -> PlayerView {
        PlayerView { playing: false, time: F32_ZERO, ..self }
    }

    /// Stopped where it is.
    pub open spec fn paused(self) -> PlayerView {
        PlayerView { playing: false, ..self }
    }

    /// Going on with the clip that was started last, if any was.
    pub open spec fn resumed(self) -> PlayerView {
        PlayerView { playing: self.playing || self.current is Some, ..self }
    }

    /// Whether time passes: a clip that is there has been started and not been stopped.
    pub open spec fn moves(self) -> bool {
        &&& self.playing
        &&& self.current is Some
        &&& self.clips.contains_key(self.current->Some_0)
    }

    /// After time has passed. `moved` is the time to which it has run; `wrapped` is that time
    /// within the clip, for a clip that starts over.
    pub open spec fn advance(self, moved: F32Bits, wrapped: F32Bits) -> PlayerView {
        if !self.moves() {
            self
        } else {
            let duration = self.clips[self.current->Some_0].duration;
            if !f32_lt(duration, moved) {
                PlayerView { time: moved, ..self }
            } else if self.looping {
                PlayerView { time: wrapped, ..self }
            } else {
                PlayerView { time: duration, playing: false, ..self }
            }
        }
    }
}

impl View for AnimationPlayer {
    type V = PlayerView;

    closed spec fn view(&self) -> PlayerView {
        PlayerView {
            clips: by_name(views(self.clips@)),
            current: match self.current {
                Some(name) => Some(name@),
                None => None,
            },
            time: self.time,
            playing: self.playing,
            looping: self.looping,
            speed: self.speed,
        }
    }
}

/// With distinct names, a clip is found under its name, and nothing else is found.
proof fn lemma_by_name(clips: Seq<ClipView>)
    requires
        distinct_names(clips),
    ensures
        forall|i: int|
            0 <= i < clips.len() ==> {
                &&& by_name(clips).contains_key((#[trigger] clips[i]).name)
                &&& by_name(clips)[clips[i].name] == clips[i]
            },
        forall|name: Seq<char>| #[trigger]
            by_name(clips).contains_key(name) ==> exists|i: int|
                0 <= i < clips.len() && (#[trigger] clips[i]).name == name,
    decreases clips.len(),
{
    if clips.len() > 0 {
        let front = clips.drop_last();
        lemma_by_name(front);
        assert forall|i: int| 0 <= i < clips.len() implies {
            &&& by_name(clips).contains_key((#[trigger] clips[i]).name)
            &&& by_name(clips)[clips[i].name] == clips[i]
        } by {
            if i < front.len() {
                assert(front[i] == clips[i]);
                assert(clips[i].name != clips[clips.len() - 1].name);
            }
        }
        assert forall|name: Seq<char>| #[trigger] by_name(clips).contains_key(name) implies exists|
            i: int,
        |
            0 <= i < clips.len() && (#[trigger] clips[i]).name == name by {
            if name == clips.last().name {
                assert(clips[clips.len() - 1].name == name);
            } else {
                assert(by_name(front).contains_key(name));
                let i = choose|i: int| 0 <= i < front.len() && (#[trigger] front[i]).name == name;
                assert(clips[i].name == name);
            }
        }
    }
}

/// Replacing the clip of a name, or putting a new one behind the others, changes just that name.
proof fn lemma_by_name_update(clips: Seq<ClipView>, i: int, clip: ClipView)
    requires
        distinct_names(clips),
        0 <= i < clips.len(),
        clips[i].name == clip.name,
    ensures
        distinct_names(clips.update(i, clip)),
        by_name(clips.update(i, clip)) == by_name(clips).insert(clip.name, clip),
    decreases clips.len(),
{
    let changed = clips.update(i, clip);
    assert(distinct_names(changed)) by {
        assert forall|a: int, b: int| 0 <= a < b < changed.len() implies (#[trigger]
        changed[a]).name != (#[trigger] changed[b]).name by {
            assert(clips[a].name != clips[b].name);
        }
    }
    if i == clips.len() - 1 {
        assert(changed.drop_last() =~= clips.drop_last());
        assert(by_name(changed) =~= by_name(clips).insert(clip.name, clip));
    } else {
        assert(changed.drop_last() =~= clips.drop_last().update(i, clip));
        lemma_by_name_update(clips.drop_last(), i, clip);
        assert(clips[i].name != clips[clips.len() - 1].name);
        assert(by_name(changed) =~= by_name(clips).insert(clip.name, clip));
    }
}

impl AnimationPlayer {
    /// The names of the clips differ, the clip that was started last is one of them, and only a
    /// clip that was started plays.
    pub closed spec fn wf(&self) -> bool {
        &&& distinct_names(views(self.clips@))
        &&& self@.current matches Some(name) ==> self@.clips.contains_key(name)
        &&& self@.playing ==> self@.current is Some
    }

    /// Where the clip with this name stands.
    fn position(&self, name: &str) -> (out: Option<usize>)
        requires
            self.wf(),
        ensures
            match out {
                Some(i) => {
                    &&& i < self.clips@.len()
                    &&& self.clips@[i as int]@.name == name@
                    &&& self@.clips.contains_key(name@)
                    &&& self@.clips[name@] == self.clips@[i as int]@
                },
                None => !self@.clips.contains_key(name@),
            },
    {
        proof {
            lemma_by_name(views(self.clips@));
        }
        let wanted = String::from_str(name);
        let mut i: usize = 0;
        while i < self.clips.len()
            invariant
                i <= self.clips@.len(),
                wanted@ == name@,
                forall|j: int| 0 <= j < i ==> (#[trigger] self.clips@[j])@.name != name@,
                forall|j: int|
                    0 <= j < self.clips@.len() ==> {
                        &&& self@.clips.contains_key((#[trigger] views(self.clips@)[j]).name)
                        &&& self@.clips[views(self.clips@)[j].name] == views(self.clips@)[j]
                    },
            decreases self.clips@.len() - i,
        {
            if self.clips[i].name == wanted {
                proof {
                    assert(views(self.clips@)[i as int] == self.clips@[i as int]@);
                }
                return Some(i);
            }
            i = i + 1;
        }
        proof {
            if self@.clips.contains_key(name@) {
                let j = choose|j: int|
                    0 <= j < views(self.clips@).len() && (#[trigger] views(self.clips@)[j]).name
                        == name@;
                assert(self.clips@[j]@.name == name@);
            }
        }
        None
    }

    /// A player for the given clips. Of several with the same name the last one is kept.
    pub fn new(clips: Vec<AnimationClip>) -> (out: Self)
        ensures
            out.wf(),
            out@ == PlayerView::fresh(views(clips@)),
    {
        let mut player = AnimationPlayer {
            clips: Vec::new(),
            current: None,
            time: F32_ZERO,
            playing: false,
            looping: true,
            speed: F32_ONE,
        };
        let ghost all = views(clips@);
        let mut i: usize = 0;
        proof {
            assert(all.take(0) =~= Seq::<ClipView>::empty());
            assert(views(player.clips@) =~= Seq::<ClipView>::empty());
        }
        while i < clips.len()
            invariant
                i <= clips@.len(),
                all == views(clips@),
                player.wf(),
                player@ == PlayerView::fresh(all.take(i as int)),
                player.current is None,
            decreases clips@.len() - i,
        {
            let clip = clips[i].clone();
            let ghost before = views(player.clips@);
            let ghost given = clip@;
            let found = player.position(clip.name.as_str());
            match found {
                Some(at) => {
                    player.clips.set(at, clip);
                    proof {
                        lemma_by_name_update(before, at as int, given);
                        assert(views(player.clips@) =~= before.update(at as int, given));
                    }
                },
                None => {
                    player.clips.push(clip);
                    proof {
                        lemma_by_name(before);
                        assert(views(player.clips@) =~= before.push(given));
                        assert(before.push(given).drop_last() =~= before);
                        assert forall|a: int, b: int|
                            0 <= a < b < before.len() + 1 implies (#[trigger] before.push(
                            given,
                        )[a]).name != (#[trigger] before.push(given)[b]).name by {
                            assert(before[a].name != given.name);
                        }
                    }
                },
            }
            proof {
                assert(all.take(i + 1).drop_last() =~= all.take(i as int));
                assert(all.take(i + 1).last() == given);
            }
            i = i + 1;
        }
        proof {
            assert(all.take(i as int) =~= all);
        }
        player
    }

    /// Starts the clip with this name from its beginning. A name that no clip has changes nothing.
    pub fn play(&mut self, name: &str)
        requires
            old(self).wf(),
        ensures
            final(self).wf(),
            final(self)@ == old(self)@.play(name@),
    {
        if self.position(name).is_none() {
            return;
        }
        self.current = Some(String::from_str(name));
        self.time = F32_ZERO;
        self.playing = true;
    }

    /// Starts some clip whose name, in lower case, holds the query, in lower case. If there is
    /// none, nothing changes.
    pub fn play_fuzzy(&mut self, query: &str)
        requires
            old(self).wf(),
        ensures
            final(self).wf(),
            if exists|name: Seq<char>| #[trigger]
                old(self)@.clips.contains_key(name) && occurs_in(lowercase(query@), lowercase(name)) {
                exists|name: Seq<char>|
                    {
                        &&& #[trigger] old(self)@.clips.contains_key(name)
                        &&& occurs_in(lowercase(query@), lowercase(name))
                        &&& final(self)@ == old(self)@.play(name)
                    }
            } else {
                final(self)@ == old(self)@
            },
    {
        let query_lower = to_lowercase(query);
        let mut lowered: Vec<String> = Vec::new();
        let mut i: usize = 0;
        while i < self.clips.len()
            invariant
                i <= self.clips@.len(),
                lowered@.len() == i,
                forall|j: int|
                    0 <= j < i ==> (#[trigger] lowered@[j])@ == lowercase(self.clips@[j]@.name),
                *self == *old(self),
            decreases self.clips@.len() - i,
        {
            lowered.push(to_lowercase(self.clips[i].name.as_str()));
            i = i + 1;
        }
        proof {
            lemma_by_name(views(self.clips@));
        }
        match first_containing(&lowered, query_lower.as_str()) {
            Some(at) => {
                let name = self.clips[at].name.clone();
                proof {
                    assert(views(self.clips@)[at as int].name == name@);
                    assert(lowered@[at as int]@ == lowercase(name@));
                    assert(old(self)@.clips.contains_key(name@));
                }
                self.play(name.as_str());
            },
            None => {
                proof {
                    assert forall|name: Seq<char>| #[trigger]
                        old(self)@.clips.contains_key(name) implies !occurs_in(
                        lowercase(query@),
                        lowercase(name),
                    ) by {
                        let j = choose|j: int|
                            0 <= j < views(self.clips@).len() && (#[trigger] views(
                                self.clips@,
                            )[j]).name == name;
                        assert(lowered@[j]@ == lowercase(name));
                    }
                }
            },
        }
    }

    /// Stops, and goes back to the beginning.
    pub fn stop(&mut self)
        requires
            old(self).wf(),
        ensures
            final(self).wf(),
            final(self)@ == (PlayerView { playing: false, time: F32_ZERO, ..old(self)@ }),
            final(self)@ == old(self)@.stopped(),
    {
        self.playing = false;
        self.time = F32_ZERO;
    }

    /// Stops where it is.
    pub fn pause(&mut self)
        requires
            old(self).wf(),
        ensures
            final(self).wf(),
            final(self)@ == (PlayerView { playing: false, ..old(self)@ }),
            final(self)@ == old(self)@.paused(),
    {
        self.playing = false;
    }

    /// Goes on with the clip that was started last, if any was.
    pub fn resume(&mut self)
        requires
            old(self).wf(),
        ensures
            final(self).wf(),
            final(self)@ == (PlayerView {
                playing: old(self)@.playing || old(self)@.current is Some,
                ..old(self)@
            }),
            final(self)@ == old(self)@.resumed(),
    {
        if self.current.is_some() {
            self.playing = true;
        }
    }

    pub fn is_playing(&self) -> (out: bool)
        ensures
            out == self@.playing,
    {
        self.playing
    }

    /// How far the clip has run.
    pub fn time(&self) -> (out: F32Bits)
        ensures
            out == self@.time,
    {
        self.time
    }

    pub fn current_clip_name(&self) -> (out: Option<&str>)
        ensures
            match self@.current {
                Some(name) => out is Some && out->Some_0@ == name,
                None => out is None,
            },
    {
        match &self.current {
            Some(name) => Some(name.as_str()),
            None => None,
        }
    }

    /// The clip that was started last.
    pub fn current_clip(&self) -> (out: Option<&AnimationClip>)
        requires
            self.wf(),
        ensures
            match self@.current {
                Some(name) if self@.clips.contains_key(name) => out is Some && out->Some_0@
                    == self@.clips[name],
                _ => out is None,
            },
    {
        match &self.current {
            Some(name) => match self.position(name.as_str()) {
                Some(at) => Some(&self.clips[at]),
                None => None,
            },
            None => None,
        }
    }

    /// Lets time pass. The caller adds the time that has passed, times the speed, to the player's
    /// time and gives the sum as `moved`; `wrapped` is the remainder of `moved` divided by the
    /// clip's duration, or by a ten-thousandth for shorter clips.
    pub fn advance(&mut self, moved: F32Bits, wrapped: F32Bits)
        requires
            old(self).wf(),
        ensures
            final(self).wf(),
            final(self)@ == old(self)@.advance(moved, wrapped),
    {
        if !self.playing {
            return;
        }
        let duration: F32Bits = match self.current_clip() {
            Some(clip) => clip.duration,
            None => return,
        };
        if below(duration, moved) {
            if self.looping {
                self.time = wrapped;
            } else {
                self.time = duration;
                self.playing = false;
            }
        } else {
            self.time = moved;
        }
    }

    /// Whether there is no clip at all.
    pub fn has_no_clips(&self) -> (out: bool)
        requires
            self.wf(),
        ensures
            out == (self@.clips.dom() =~= Set::<Seq<char>>::empty()),
    {
        proof {
            lemma_by_name(views(self.clips@));
            if self.clips@.len() > 0 {
                assert(self@.clips.contains_key(views(self.clips@)[0].name));
                assert(self@.clips.dom().contains(views(self.clips@)[0].name));
            }
        }
        self.clips.len() == 0
    }

    /// The name, the duration and the number of channels of each clip.
    pub fn clip_details(&self) -> (out: Vec<(&str, F32Bits, usize)>)
        requires
            self.wf(),
        ensures
            forall|i: int|
                0 <= i < out@.len() ==> {
                    let (name, duration, channels) = #[trigger] out@[i];
                    &&& self@.clips.contains_key(name@)
                    &&& self@.clips[name@].duration == duration
                    &&& self@.clips[name@].channels.len() == channels
                },
            forall|i: int, j: int|
                0 <= i < j < out@.len() ==> (#[trigger] out@[i]).0@ != (#[trigger] out@[j]).0@,
            forall|name: Seq<char>| #[trigger]
                self@.clips.contains_key(name) ==> exists|i: int|
                    0 <= i < out@.len() && (#[trigger] out@[i]).0@ == name,
    {
        let mut details: Vec<(&str, F32Bits, usize)> = Vec::new();
        let mut i: usize = 0;
        while i < self.clips.len()
            invariant
                i <= self.clips@.len(),
                details@.len() == i,
                forall|j: int|
                    0 <= j < i ==> {
                        let clip = self.clips@[j]@;
                        &&& (#[trigger] details@[j]).0@ == clip.name
                        &&& details@[j].1 == clip.duration
                        &&& details@[j].2 == clip.channels.len()
                    },
            decreases self.clips@.len() - i,
        {
            let clip = &self.clips[i];
            details.push((clip.name.as_str(), clip.duration, clip.channels.len()));
            i = i + 1;
        }
        proof {
            let all = views(self.clips@);
            lemma_by_name(all);
            assert forall|i: int| 0 <= i < details@.len() implies {
                let (name, duration, channels) = #[trigger] details@[i];
                &&& self@.clips.contains_key(name@)
                &&& self@.clips[name@].duration == duration
                &&& self@.clips[name@].channels.len() == channels
            } by {
                assert(all[i].name == details@[i].0@);
            }
            assert forall|i: int, j: int| 0 <= i < j < details@.len() implies (#[trigger]
            details@[i]).0@ != (#[trigger] details@[j]).0@ by {
                assert(all[i].name != all[j].name);
            }
            assert forall|name: Seq<char>| #[trigger]
                self@.clips.contains_key(name) implies exists|i: int|
                0 <= i < details@.len() && (#[trigger] details@[i]).0@ == name by {
                let i = choose|i: int| 0 <= i < all.len() && (#[trigger] all[i]).name == name;
                assert(details@[i].0@ == name);
            }
        }
        details
    }

    /// The names of all clips, each once.
    pub fn list_clips(&self) -> (out: Vec<&str>)
        requires
            self.wf(),
        ensures
            forall|i: int|
                0 <= i < out@.len() ==> self@.clips.contains_key((#[trigger] out@[i])@),
            forall|i: int, j: int|
                0 <= i < j < out@.len() ==> (#[trigger] out@[i])@ != (#[trigger] out@[j])@,
            forall|name: Seq<char>| #[trigger]
                self@.clips.contains_key(name) ==> exists|i: int|
                    0 <= i < out@.len() && (#[trigger] out@[i])@ == name,
    {
        let mut names: Vec<&str> = Vec::new();
        let mut i: usize = 0;
        while i < self.clips.len()
            invariant
                i <= self.clips@.len(),
                names@.len() == i,
                forall|j: int| 0 <= j < i ==> (#[trigger] names@[j])@ == self.clips@[j]@.name,
            decreases self.clips@.len() - i,
        {
            names.push(self.clips[i].name.as_str());
            i = i + 1;
        }
        proof {
            let all = views(self.clips@);
            lemma_by_name(all);
            assert forall|i: int| 0 <= i < names@.len() implies self@.clips.contains_key(
                (#[trigger] names@[i])@,
            ) by {
                assert(all[i].name == names@[i]@);
            }
            assert forall|i: int, j: int| 0 <= i < j < names@.len() implies (#[trigger]
            names@[i])@ != (#[trigger] names@[j])@ by {
                assert(all[i].name != all[j].name);
            }
            assert forall|name: Seq<char>| #[trigger]
                self@.clips.contains_key(name) implies exists|i: int|
                0 <= i < names@.len() && (#[trigger] names@[i])@ == name by {
                let i = choose|i: int| 0 <= i < all.len() && (#[trigger] all[i]).name == name;
                assert(names@[i]@ == name);
            }
        }
        names
    }
}

/// At any time the clip that was started last is one of the player's, and nothing plays that was
/// not started.
pub proof fn law_only_started_clips_play(player: AnimationPlayer)
    requires
        player.wf(),
    ensures
        player@.current matches Some(name) ==> player@.clips.contains_key(name),
        player@.playing <==> player@.moves(),
{
}

/// A clip that was just started is at its beginning, and goes on as time passes.
pub proof fn law_started_clips_move(player: PlayerView, name: Seq<char>, moved: F32Bits)
    requires
        player.clips.contains_key(name),
    ensures
        player.play(name).moves(),
        player.play(name).time == F32_ZERO,
        !f32_lt(player.clips[name].duration, moved) ==> player.play(name).advance(
            moved,
            moved,
        ).time == moved,
{
}

/// While nothing plays, no time passes.
pub proof fn law_halted_players_keep_their_time(
    player: PlayerView,
    moved: F32Bits,
    wrapped: F32Bits,
)
    requires
        !player.playing,
    ensures
        player.advance(moved, wrapped) == player,
{
}

/// A clip that does not start over ends exactly at its duration, and stops.
pub proof fn law_clips_end_at_their_duration(
    player: PlayerView,
    moved: F32Bits,
    wrapped: F32Bits,
)
    requires
        player.moves(),
        !player.looping,
        f32_lt(player.clips[player.current->Some_0].duration, moved),
    ensures
        player.advance(moved, wrapped).time == player.clips[player.current->Some_0].duration,
        !player.advance(moved, wrapped).playing,
{
}

/// Clips are found under their own names and no others. Of several with the same name it is the last
/// one.
pub proof fn law_the_last_clip_of_a_name_counts(clips: Seq<ClipView>, name: Seq<char>)
    ensures
        by_name(clips).contains_key(name) <==> exists|i: int|
            0 <= i < clips.len() && (#[trigger] clips[i]).name == name,
        by_name(clips).contains_key(name) ==> exists|i: int|
            {
                &&& 0 <= i < clips.len()
                &&& by_name(clips)[name] == #[trigger] clips[i]
                &&& clips[i].name == name
                &&& forall|j: int| i < j < clips.len() ==> (#[trigger] clips[j]).name != name
            },
    decreases clips.len(),
{
    if clips.len() > 0 {
        let front = clips.drop_last();
        let last = clips.len() - 1;
        law_the_last_clip_of_a_name_counts(front, name);
        if clips[last].name != name {
            if by_name(front).contains_key(name) {
                let i = choose|i: int|
                    {
                        &&& 0 <= i < front.len()
                        &&& by_name(front)[name] == #[trigger] front[i]
                        &&& front[i].name == name
                        &&& forall|j: int|
                            i < j < front.len() ==> (#[trigger] front[j]).name != name
                    };
                assert(clips[i] == front[i]);
                assert forall|j: int| i < j < clips.len() implies (#[trigger] clips[j]).name
                    != name by {
                    if j < last {
                        assert(front[j] == clips[j]);
                    }
                }
            }
            assert forall|i: int| 0 <= i < clips.len() && (#[trigger] clips[i]).name
                == name implies by_name(front).contains_key(name) by {
                assert(front[i] == clips[i]);
            }
        }
    }
}

/// A new player has been given its clips, has started none of them, stands at zero, starts clips over
/// and runs at the speed of one, `0x3F800000` by its bits.
pub proof fn law_new_players_are_at_rest(clips: Seq<ClipView>)
    ensures
        ({
            let player = PlayerView::fresh(clips);
            &&& player.clips == by_name(clips)
            &&& player.current is None
            &&& player.time == 0
            &&& !player.playing
            &&& player.looping
            &&& player.speed == 0x3F80_0000
        }),
{
}

/// Playing a clip that is there makes it the current one, from its beginning, and lets it play; a
/// name that no clip has changes nothing. Neither changes the clips, the speed or whether clips start
/// over.
pub proof fn law_playing_starts_the_clip(player: PlayerView, name: Seq<char>)
    ensures
        ({
            let after = player.play(name);
            &&& player.clips.contains_key(name) ==> after.current == Some(name) && after.time == 0
                && after.playing
            &&& !player.clips.contains_key(name) ==> after == player
            &&& after.clips == player.clips
            &&& after.looping == player.looping
            &&& after.speed == player.speed
        }),
{
}

/// As time passes a clip that plays runs on to `moved`, unless that is past its end: then it goes on at
/// `wrapped` where clips start over, and stops at its end where they do not. Nothing but the time, and
/// whether it plays, ever changes.
pub proof fn law_time_runs_to_the_end_of_the_clip(
    player: PlayerView,
    moved: F32Bits,
    wrapped: F32Bits,
)
    ensures
        ({
            let after = player.advance(moved, wrapped);
            let plays = player.playing && player.current is Some && player.clips.contains_key(
                player.current->Some_0,
            );
            let end = player.clips[player.current->Some_0].duration;
            &&& after.clips == player.clips
            &&& after.current == player.current
            &&& after.looping == player.looping
            &&& after.speed == player.speed
            &&& !plays ==> after.time == player.time && after.playing == player.playing
            &&& plays && !f32_lt(end, moved) ==> after.time == moved && after.playing
            &&& plays && f32_lt(end, moved) && player.looping ==> after.time == wrapped
                && after.playing
            &&& plays && f32_lt(end, moved) && !player.looping ==> after.time == end
                && !after.playing
        }),
{
}

/// A text occurs in another exactly where the other is the text with something, or nothing, before
/// and behind it.
pub proof fn law_texts_occur_in_what_surrounds_them(
    before: Seq<char>,
    part: Seq<char>,
    behind: Seq<char>,
    text: Seq<char>,
)
    ensures
        occurs_in(part, before + part + behind),
        occurs_in(part, text) ==> exists|at: int|
            0 <= at <= text.len() && text == #[trigger] text.take(at) + part + text.skip(
                at + part.len(),
            ),
{
    let whole = before + part + behind;
    let at = before.len() as int;
    assert(whole.subrange(at, at + part.len()) =~= part);
    if occurs_in(part, text) {
        let at = choose|at: int|
            0 <= at <= text.len() - part.len() && part == #[trigger] text.subrange(
                at,
                at + part.len(),
            );
        assert(text =~= text.take(at) + part + text.skip(at + part.len()));
    }
}

/// A clip that was paused goes on where it was, and one that was stopped goes on from its beginning; both
/// only where one was started. A clip that plays is not changed by going on.
pub proof fn law_paused_clips_go_on_where_they_were(player: PlayerView)
    ensures
        !player.paused().playing,
        player.paused().time == player.time,
        player.paused().current == player.current,
        player.paused().clips == player.clips,
        !player.stopped().playing,
        player.stopped().time == 0,
        player.stopped().current == player.current,
        player.stopped().clips == player.clips,
        player.playing && player.current is Some ==> player.paused().resumed() == player,
        player.current is Some ==> player.stopped().resumed().playing
            && player.stopped().resumed().time == 0,
        player.current is None ==> player.resumed() == player,
        player.playing ==> player.resumed() == player,
        player.resumed().time == player.time,
        player.stopped().looping == player.looping && player.stopped().speed == player.speed,
        player.paused().looping == player.looping && player.paused().speed == player.speed,
{
}

} // verus!
