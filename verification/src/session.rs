//! What was captured last of each application, and whether it still holds.

use crate::engine::{app_check, goes_by, window_identity};
use crate::fault::{agrees, general, Fault, FaultView};
use crate::kwin::{normal, WindowInfo, WindowView};
use crate::text::{decimal, quote, quoted, same, show_i64};
use crate::tree::{numbered, WalkView};
use vstd::prelude::*;

verus! {

/// What was captured of an application: its window as it was then, how points
/// of the picture relate to the screen, and the objects behind its elements.
#[derive(Debug)]
pub struct Session<T, C> {
    pub identity: String,
    pub window: WindowInfo,
    pub capture: C,
    pub objects: Vec<T>,
}

/// What was captured of an application.
#[verifier::ext_equal]
#[verifier::reject_recursive_types(T)]
#[verifier::reject_recursive_types(C)]
pub struct SessionView<T, C> {
    pub identity: Seq<char>,
    pub window: WindowView,
    pub capture: C,
    pub objects: Seq<T>,
}

impl<T, C> Session<T, C> {
    pub open spec fn view(self) -> SessionView<T, C> {
        SessionView {
            identity: self.identity@,
            window: self.window@,
            capture: self.capture,
            objects: self.objects@,
        }
    }

    /// What is kept of a capture of a window.
    pub fn new(window: WindowInfo, capture: C, objects: Vec<T>) -> (r: Session<T, C>)
        ensures
            r@ == (SessionView {
                identity: goes_by(window@),
                window: window@,
                capture,
                objects: objects@,
            }),
    {
        Session { identity: window_identity(&window), window, capture, objects }
    }
}

/// Whether a session still holds of a window, given whether the window is
/// where it was.
pub open spec fn session_check<T, C>(s: SessionView<T, C>, w: WindowView, in_place: bool) -> Result<
    (),
    FaultView,
> {
    if s.window.uuid != w.uuid {
        Err(
            general(
                "stale app session: screenshot window UUID "@ + s.window.uuid + " changed to "@
                    + w.uuid + "; call get_app_state again"@,
            ),
        )
    } else if s.identity != goes_by(w) || !in_place {
        Err(general("app window identity or geometry changed; call get_app_state again"@))
    } else {
        Ok(())
    }
}

/// The object behind an element.
pub open spec fn object_of<T, C>(s: SessionView<T, C>, app: Seq<char>, index: int) -> Result<
    T,
    FaultView,
> {
    if 0 <= index < s.objects.len() {
        Ok(s.objects[index])
    } else {
        Err(
            general(
                "unknown element_index "@ + decimal(index) + " for "@ + quoted(app)
                    + "; call get_app_state again"@,
            ),
        )
    }
}

impl<T, C> Session<T, C> {
    /// Fails where a session no longer holds of a window.
    pub fn confirm(&self, window: &WindowInfo, in_place: bool) -> (r: Result<(), Fault>)
        ensures
            agrees(r, session_check(self@, window@, in_place)),
    {
        if !same(self.window.uuid.as_str(), window.uuid.as_str()) {
            let mut message = "stale app session: screenshot window UUID ".to_owned();
            message.append(self.window.uuid.as_str());
            message.append(" changed to ");
            message.append(window.uuid.as_str());
            message.append("; call get_app_state again");
            return Err(Fault::new(message));
        }
        if !same(self.identity.as_str(), window_identity(window).as_str()) || !in_place {
            return Err(
                Fault::of("app window identity or geometry changed; call get_app_state again"),
            );
        }
        Ok(())
    }

    /// Finds the object behind an element.
    pub fn object(&self, app: &str, element_index: i64) -> (r: Result<&T, Fault>)
        ensures
            match (r, object_of(self@, app@, element_index as int)) {
                (Ok(o), Ok(e)) => *o == e,
                (Err(f), Err(e)) => f@ == e,
                _ => false,
            },
    {
        if element_index >= 0 && (element_index as u64) < self.objects.len() as u64 {
            return Ok(&self.objects[element_index as usize]);
        }
        let mut message = "unknown element_index ".to_owned();
        message.append(show_i64(element_index).as_str());
        message.append(" for ");
        message.append(quote(app).as_str());
        message.append("; call get_app_state again");
        Err(Fault::new(message))
    }
}

/// The sessions of applications, by their names in normal form.
#[derive(Debug)]
pub struct Sessions<T, C> {
    entries: Vec<(String, Session<T, C>)>,
}

/// The place of a name.
spec fn place<T, C>(entries: Seq<(String, Session<T, C>)>, key: Seq<char>, i: int) -> bool {
    0 <= i < entries.len() && entries[i].0@ == key
}

/// Whether a name has a place.
spec fn has<T, C>(entries: Seq<(String, Session<T, C>)>, key: Seq<char>) -> bool {
    exists|i: int| place(entries, key, i)
}

impl<T, C> Sessions<T, C> {
    pub closed spec fn view(self) -> Map<Seq<char>, SessionView<T, C>> {
        Map::new(
            |key: Seq<char>| has(self.entries@, key),
            |key: Seq<char>| self.entries@[choose|i: int| place(self.entries@, key, i)].1@,
        )
    }

    /// Whether each name has one place.
    pub closed spec fn wf(self) -> bool {
        forall|i: int, j: int|
            0 <= i < j < self.entries@.len() ==> (#[trigger] self.entries@[i]).0@
                != (#[trigger] self.entries@[j]).0@
    }

    pub fn new() -> (r: Sessions<T, C>)
        ensures
            r.wf(),
            r@ == Map::<Seq<char>, SessionView<T, C>>::empty(),
    {
        let r = Sessions { entries: Vec::new() };
        assert(r@ =~= Map::<Seq<char>, SessionView<T, C>>::empty());
        r
    }

    fn find(&self, key: &str) -> (r: Option<usize>)
        requires
            self.wf(),
        ensures
            match r {
                Some(i) => i < self.entries@.len() && self.entries@[i as int].0@ == key@
                    && self@.contains_key(key@) && self@[key@] == self.entries@[i as int].1@,
                None => !self@.contains_key(key@),
            },
    {
        let mut i: usize = 0;
        while i < self.entries.len()
            invariant
                self.wf(),
                i <= self.entries@.len(),
                forall|j: int| 0 <= j < i ==> (#[trigger] self.entries@[j]).0@ != key@,
            decreases self.entries@.len() - i,
        {
            if same(self.entries[i].0.as_str(), key) {
                proof {
                    assert(place(self.entries@, key@, i as int));
                    let k = choose|k: int| place(self.entries@, key@, k);
                    assert(place(self.entries@, key@, k));
                    if k < i {
                        assert(self.entries@[k].0@ != self.entries@[i as int].0@);
                    } else if i < k {
                        assert(self.entries@[i as int].0@ != self.entries@[k].0@);
                    }
                }
                return Some(i);
            }
            i += 1;
        }
        proof {
            if has(self.entries@, key@) {
                let k = choose|k: int| place(self.entries@, key@, k);
                assert(self.entries@[k].0@ != key@);
            }
        }
        None
    }

    /// Keeps a session in place of an earlier one of the same name.
    pub fn insert(&mut self, key: String, session: Session<T, C>)
        requires
            old(self).wf(),
        ensures
            final(self).wf(),
            final(self)@ == old(self)@.insert(key@, session@),
    {
        let ghost before = self.entries@;
        match self.find(key.as_str()) {
            Some(i) => {
                self.entries.set(i, (key, session));
                assert(self.entries@ =~= before.update(i as int, (key, session)));
                assert(place(self.entries@, key@, i as int));
                proof {
                    assert forall|a: int, b: int|
                        0 <= a < b < self.entries@.len() implies (#[trigger] self.entries@[a]).0@
                        != (#[trigger] self.entries@[b]).0@ by {
                        assert(before[a].0@ != before[b].0@);
                    }
                }
            },
            None => {
                self.entries.push((key, session));
                assert(self.entries@ =~= before.push((key, session)));
                assert(place(self.entries@, key@, before.len() as int));
                proof {
                    assert forall|a: int, b: int|
                        0 <= a < b < self.entries@.len() implies (#[trigger] self.entries@[a]).0@
                        != (#[trigger] self.entries@[b]).0@ by {
                        if b < before.len() {
                            assert(before[a].0@ != before[b].0@);
                        } else {
                            assert(place(before, before[a].0@, a));
                        }
                    }
                }
            },
        }
        proof {
            let now = self.entries@;
            let expected = old(self)@.insert(key@, session@);
            assert forall|k: Seq<char>| #[trigger]
                self@.contains_key(k) == expected.contains_key(k) && (self@.contains_key(k)
                    ==> self@[k] == expected[k]) by {
                if k == key@ {
                    let i = choose|i: int| place(now, k, i);
                    assert(place(now, k, i));
                    assert(now[i].1 == session) by {
                        let at = if before.len() < now.len() {
                            before.len() as int
                        } else {
                            choose|at: int| place(now, k, at) && now[at].1 == session
                        };
                        if i < at {
                            assert(now[i].0@ != now[at].0@);
                        } else if at < i {
                            assert(now[at].0@ != now[i].0@);
                        }
                    }
                } else {
                    if has(now, k) {
                        let i = choose|i: int| place(now, k, i);
                        assert(place(before, k, i));
                        let j = choose|j: int| place(before, k, j);
                        if i < j {
                            assert(before[i].0@ != before[j].0@);
                        } else if j < i {
                            assert(before[j].0@ != before[i].0@);
                        }
                    }
                    if has(before, k) {
                        let j = choose|j: int| place(before, k, j);
                        assert(place(now, k, j));
                    }
                }
            }
            assert(self@ =~= expected);
        }
    }
}

/// The session of an application.
pub open spec fn session_for<T, C>(
    sessions: Map<Seq<char>, SessionView<T, C>>,
    app: Seq<char>,
) -> Result<SessionView<T, C>, FaultView> {
    match app_check(normal(app)) {
        Err(e) => Err(e),
        Ok(key) => if sessions.contains_key(key) {
            Ok(sessions[key])
        } else {
            Err(
                general(
                    "no screenshot session for "@ + quoted(app) + "; call get_app_state first"@,
                ),
            )
        },
    }
}

impl<T, C> Sessions<T, C> {
    /// Finds the session of an application whose name, in normal form, is
    /// given beside the name as it was asked for.
    pub fn session_named(&self, app: &str, normalized: String) -> (r: Result<
        &Session<T, C>,
        Fault,
    >)
        requires
            self.wf(),
        ensures
            match (r, app_check(normalized@)) {
                (Ok(s), Ok(key)) => self@.contains_key(key) && s@ == self@[key],
                (Err(f), Ok(key)) => !self@.contains_key(key) && f@ == general(
                    "no screenshot session for "@ + quoted(app@) + "; call get_app_state first"@,
                ),
                (Err(f), Err(e)) => f@ == e,
                _ => false,
            },
    {
        let key = match crate::engine::check_app(normalized) {
            Ok(key) => key,
            Err(fault) => return Err(fault),
        };
        match self.find(key.as_str()) {
            Some(i) => Ok(&self.entries[i].1),
            None => {
                let mut message = "no screenshot session for ".to_owned();
                message.append(quote(app).as_str());
                message.append("; call get_app_state first");
                Err(Fault::new(message))
            },
        }
    }

    /// Finds the session of an application.
    pub fn session(&self, app: &str) -> (r: Result<&Session<T, C>, Fault>)
        requires
            self.wf(),
        ensures
            match (r, session_for(self@, app@)) {
                (Ok(s), Ok(e)) => s@ == e,
                (Err(f), Err(e)) => f@ == e,
                _ => false,
            },
    {
        self.session_named(app, crate::kwin::normalize(app))
    }
}

/// What was captured last of an application is found under any spelling of its
/// name that has the same normal form, and the captures of other applications
/// stay as they were.
pub proof fn law_sessions_are_kept<T, C>(
    sessions: Map<Seq<char>, SessionView<T, C>>,
    app: Seq<char>,
    other: Seq<char>,
    s: SessionView<T, C>,
)
    requires
        app_check(normal(app)) is Ok,
    ensures
        normal(other) == normal(app) ==> session_for(sessions.insert(normal(app), s), other) == Ok::<
            SessionView<T, C>,
            FaultView,
        >(s),
        normal(other) != normal(app) ==> session_for(sessions.insert(normal(app), s), other)
            == session_for(sessions, other),
{
}

/// An element of a session that no longer holds of the window is not reached:
/// a session holds only of the window that it was made of, under the name that
/// the window had and where the window was.
pub proof fn law_stale_sessions_are_refused<T, C>(
    s: SessionView<T, C>,
    w: WindowView,
    in_place: bool,
)
    ensures
        session_check(s, w, in_place) is Ok <==> s.window.uuid == w.uuid && s.identity == goes_by(w)
            && in_place,
{
}

/// Of a capture that holds what a walk listed, the number of a listed element
/// is its place, and reaches the object behind it.
pub proof fn law_elements_are_reached_by_number<T, C>(
    w: WalkView<T>,
    s: SessionView<T, C>,
    app: Seq<char>,
    i: int,
)
    requires
        numbered(w),
        s.objects == w.objects,
        0 <= i < w.lines.len(),
    ensures
        w.lines[i].index == i,
        object_of(s, app, w.lines[i].index) == Ok::<T, FaultView>(w.objects[i]),
{
}

} // verus!
