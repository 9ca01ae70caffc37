//! Replacing the directory of a package: the old one is moved aside, and moved back when the new
//! one cannot be moved in.

use vstd::prelude::*;

verus! {

/// How far a replacement is.
#[derive(Debug)]
pub enum ReplaceState<T> {
    /// It is to be found out whether there is an old directory.
    Look,
    /// There is one: a place for it is to be made.
    MakeBackup,
    /// The place is to be cleared.
    ClearBackup(T),
    /// The old directory is to be moved there.
    MoveOld(T),
    /// The new directory is to be moved in; the old one, if there was one, is in this place.
    MoveNew(Option<T>),
    /// That failed: the old directory is to be moved back from this place.
    MoveBack(T),
    /// The new directory is to be removed.
    Discard,
    /// The new directory is in: the old one is to be removed from this place.
    DropOld(T),
    /// The new directory is in.
    Done,
    /// The replacement failed.
    Failed,
}

/// What a replacement asks for next.
#[derive(Debug)]
pub enum ReplaceAction<T> {
    /// Find out whether something stands at this path.
    Look(T),
    /// Make an empty directory, of a new name, beside the directory of the package.
    MakeBackup,
    /// Remove what stands at this path.
    Remove(T),
    /// Move what stands at a path to another.
    Move { from: T, to: T },
    /// Nothing: the new directory is in.
    Succeed,
    /// Nothing: report the first failure.
    Fail,
}

/// What came of it.
#[derive(Debug)]
pub enum ReplaceEvent<T> {
    /// Something stands at the path.
    Exists,
    /// Nothing stands at the path.
    Missing,
    /// The directory was made, at this path.
    Made(T),
    /// It was done.
    Done,
    /// It failed.
    Failed,
}

impl View for ReplaceState<String> {
    type V = ReplaceState<Seq<char>>;

    open spec fn view(&self) -> ReplaceState<Seq<char>> {
        match *self {
            ReplaceState::Look => ReplaceState::Look,
            ReplaceState::MakeBackup => ReplaceState::MakeBackup,
            ReplaceState::ClearBackup(backup) => ReplaceState::ClearBackup(backup@),
            ReplaceState::MoveOld(backup) => ReplaceState::MoveOld(backup@),
            ReplaceState::MoveNew(Some(backup)) => ReplaceState::MoveNew(Some(backup@)),
            ReplaceState::MoveNew(None) => ReplaceState::MoveNew(None),
            ReplaceState::MoveBack(backup) => ReplaceState::MoveBack(backup@),
            ReplaceState::Discard => ReplaceState::Discard,
            ReplaceState::DropOld(backup) => ReplaceState::DropOld(backup@),
            ReplaceState::Done => ReplaceState::Done,
            ReplaceState::Failed => ReplaceState::Failed,
        }
    }
}

impl View for ReplaceAction<String> {
    type V = ReplaceAction<Seq<char>>;

    open spec fn view(&self) -> ReplaceAction<Seq<char>> {
        match *self {
            ReplaceAction::Look(path) => ReplaceAction::Look(path@),
            ReplaceAction::MakeBackup => ReplaceAction::MakeBackup,
            ReplaceAction::Remove(path) => ReplaceAction::Remove(path@),
            ReplaceAction::Move { from, to } => ReplaceAction::Move { from: from@, to: to@ },
            ReplaceAction::Succeed => ReplaceAction::Succeed,
            ReplaceAction::Fail => ReplaceAction::Fail,
        }
    }
}

impl View for ReplaceEvent<String> {
    type V = ReplaceEvent<Seq<char>>;

    open spec fn view(&self) -> ReplaceEvent<Seq<char>> {
        match *self {
            ReplaceEvent::Exists => ReplaceEvent::Exists,
            ReplaceEvent::Missing => ReplaceEvent::Missing,
            ReplaceEvent::Made(path) => ReplaceEvent::Made(path@),
            ReplaceEvent::Done => ReplaceEvent::Done,
            ReplaceEvent::Failed => ReplaceEvent::Failed,
        }
    }
}

/// What a replacement of the directory `dir` by `temp` asks for in a state.
pub open spec fn action_in(
    state: ReplaceState<Seq<char>>,
    temp: Seq<char>,
    dir: Seq<char>,
) -> ReplaceAction<Seq<char>> {
    match state {
        ReplaceState::Look => ReplaceAction::Look(dir),
        ReplaceState::MakeBackup => ReplaceAction::MakeBackup,
        ReplaceState::ClearBackup(backup) => ReplaceAction::Remove(backup),
        ReplaceState::MoveOld(backup) => ReplaceAction::Move { from: dir, to: backup },
        ReplaceState::MoveNew(_) => ReplaceAction::Move { from: temp, to: dir },
        ReplaceState::MoveBack(backup) => ReplaceAction::Move { from: backup, to: dir },
        ReplaceState::Discard => ReplaceAction::Remove(temp),
        ReplaceState::DropOld(backup) => ReplaceAction::Remove(backup),
        ReplaceState::Done => ReplaceAction::Succeed,
        ReplaceState::Failed => ReplaceAction::Fail,
    }
}

/// The state after what came of the action in a state. Whether the old directory could be moved
/// back and the new one removed makes no difference.
pub open spec fn state_after(
    state: ReplaceState<Seq<char>>,
    event: ReplaceEvent<Seq<char>>,
) -> ReplaceState<Seq<char>> {
    match (state, event) {
        (ReplaceState::Look, ReplaceEvent::Exists) => ReplaceState::MakeBackup,
        (ReplaceState::Look, ReplaceEvent::Missing) => ReplaceState::MoveNew(None),
        (ReplaceState::MakeBackup, ReplaceEvent::Made(backup)) => ReplaceState::ClearBackup(backup),
        (ReplaceState::ClearBackup(backup), ReplaceEvent::Done) => ReplaceState::MoveOld(backup),
        (ReplaceState::MoveOld(backup), ReplaceEvent::Done) => ReplaceState::MoveNew(Some(backup)),
        (ReplaceState::MoveNew(Some(backup)), ReplaceEvent::Done) => ReplaceState::DropOld(backup),
        (ReplaceState::MoveNew(None), ReplaceEvent::Done) => ReplaceState::Done,
        (ReplaceState::MoveNew(Some(backup)), _) => ReplaceState::MoveBack(backup),
        (ReplaceState::MoveNew(None), _) => ReplaceState::Discard,
        (ReplaceState::MoveBack(_), _) => ReplaceState::Discard,
        (ReplaceState::DropOld(_), ReplaceEvent::Done) => ReplaceState::Done,
        (ReplaceState::Done, _) => ReplaceState::Done,
        _ => ReplaceState::Failed,
    }
}

/// A replacement of the directory of a package.
#[derive(Debug)]
pub struct Replacement {
    /// Where the new directory stands.
    pub temp_path: String,
    /// Where the directory of the package belongs.
    pub package_dir: String,
    /// How far the replacement is.
    pub state: ReplaceState<String>,
}

impl Replacement {
    /// A replacement that has not begun.
    pub fn new(temp_path: String, package_dir: String) -> (r: Replacement)
        ensures
            r.temp_path@ == temp_path@,
            r.package_dir@ == package_dir@,
            r.state@ == ReplaceState::<Seq<char>>::Look,
    {
        Replacement { temp_path, package_dir, state: ReplaceState::Look }
    }

    /// What to do next.
    pub fn action(&self) -> (r: ReplaceAction<String>)
        ensures
            r@ == action_in(self.state@, self.temp_path@, self.package_dir@),
    {
        match &self.state {
            ReplaceState::Look => ReplaceAction::Look(self.package_dir.clone()),
            ReplaceState::MakeBackup => ReplaceAction::MakeBackup,
            ReplaceState::ClearBackup(backup) => ReplaceAction::Remove(backup.clone()),
            ReplaceState::MoveOld(backup) => ReplaceAction::Move {
                from: self.package_dir.clone(),
                to: backup.clone(),
            },
            ReplaceState::MoveNew(_) => ReplaceAction::Move {
                from: self.temp_path.clone(),
                to: self.package_dir.clone(),
            },
            ReplaceState::MoveBack(backup) => ReplaceAction::Move {
                from: backup.clone(),
                to: self.package_dir.clone(),
            },
            ReplaceState::Discard => ReplaceAction::Remove(self.temp_path.clone()),
            ReplaceState::DropOld(backup) => ReplaceAction::Remove(backup.clone()),
            ReplaceState::Done => ReplaceAction::Succeed,
            ReplaceState::Failed => ReplaceAction::Fail,
        }
    }

    /// Takes what came of the action.
    pub fn proceed(&mut self, event: ReplaceEvent<String>)
        ensures
            final(self).temp_path@ == old(self).temp_path@,
            final(self).package_dir@ == old(self).package_dir@,
            final(self).state@ == state_after(old(self).state@, event@),
    {
        let mut state: ReplaceState<String> = ReplaceState::Failed;
        std::mem::swap(&mut state, &mut self.state);
        let next = match (state, event) {
            (ReplaceState::Look, ReplaceEvent::Exists) => ReplaceState::MakeBackup,
            (ReplaceState::Look, ReplaceEvent::Missing) => ReplaceState::MoveNew(None),
            (ReplaceState::MakeBackup, ReplaceEvent::Made(backup)) => ReplaceState::ClearBackup(
                backup,
            ),
            (ReplaceState::ClearBackup(backup), ReplaceEvent::Done) => ReplaceState::MoveOld(
                backup,
            ),
            (ReplaceState::MoveOld(backup), ReplaceEvent::Done) => ReplaceState::MoveNew(
                Some(backup),
            ),
            (ReplaceState::MoveNew(Some(backup)), ReplaceEvent::Done) => ReplaceState::DropOld(
                backup,
            ),
            (ReplaceState::MoveNew(None), ReplaceEvent::Done) => ReplaceState::Done,
            (ReplaceState::MoveNew(Some(backup)), _) => ReplaceState::MoveBack(backup),
            (ReplaceState::MoveNew(None), _) => ReplaceState::Discard,
            (ReplaceState::MoveBack(_), _) => ReplaceState::Discard,
            (ReplaceState::DropOld(_), ReplaceEvent::Done) => ReplaceState::Done,
            (ReplaceState::Done, _) => ReplaceState::Done,
            _ => ReplaceState::Failed,
        };
        self.state = next;
    }
}

/// What stands at the paths of a file system, each thing by its name.
pub type Files = Map<Seq<char>, int>;

/// Something stands at the path.
pub open spec fn stands(files: Files, path: Seq<char>, thing: int) -> bool {
    files.dom().contains(path) && files[path] == thing
}

/// `after` is what an action that came to this leaves of `before`. A removal that failed may have
/// removed a part of what stands at its path.
pub open spec fn leaves(
    before: Files,
    action: ReplaceAction<Seq<char>>,
    event: ReplaceEvent<Seq<char>>,
    after: Files,
) -> bool {
    match action {
        ReplaceAction::Look(path) => after == before && (match event {
            ReplaceEvent::Exists => before.dom().contains(path),
            ReplaceEvent::Missing => !before.dom().contains(path),
            _ => event is Failed,
        }),
        ReplaceAction::MakeBackup => match event {
            ReplaceEvent::Made(path) => !before.dom().contains(path) && exists|thing: int|
                after == #[trigger] before.insert(path, thing),
            _ => event is Failed && after == before,
        },
        ReplaceAction::Remove(path) => match event {
            ReplaceEvent::Done => after == before.remove(path),
            _ => event is Failed && after.remove(path) == before.remove(path),
        },
        ReplaceAction::Move { from, to } => match event {
            ReplaceEvent::Done => before.dom().contains(from) && after == before.remove(
                from,
            ).insert(to, before[from]),
            _ => event is Failed && after == before,
        },
        ReplaceAction::Succeed => after == before,
        ReplaceAction::Fail => after == before,
    }
}

/// The files after a replacement is done: what stood at `temp` stands at `dir` instead, in place of
/// what stood there, and all else is as it was.
pub open spec fn replaced(start: Files, temp: Seq<char>, dir: Seq<char>) -> Files {
    start.remove(temp).insert(dir, start[temp])
}

/// The files while the old directory is in its place aside: what stood at `dir` stands at `backup`
/// instead, and all else is as it was.
pub open spec fn set_aside(start: Files, dir: Seq<char>, backup: Seq<char>) -> Files {
    start.remove(dir).insert(backup, start[dir])
}

/// What is true in a state of the replacement of `dir` by `temp`, by what stood where at the start.
pub open spec fn holds_in(
    state: ReplaceState<Seq<char>>,
    start: Files,
    files: Files,
    temp: Seq<char>,
    dir: Seq<char>,
) -> bool {
    match state {
        ReplaceState::Look => files == start,
        ReplaceState::MakeBackup => files == start && start.dom().contains(dir),
        ReplaceState::ClearBackup(backup) => {
            &&& start.dom().contains(dir)
            &&& !start.dom().contains(backup)
            &&& files.remove(backup) == start
        },
        ReplaceState::MoveOld(backup) => {
            &&& start.dom().contains(dir)
            &&& !start.dom().contains(backup)
            &&& files == start
        },
        ReplaceState::MoveNew(Some(backup)) => {
            &&& start.dom().contains(dir)
            &&& !start.dom().contains(backup)
            &&& files == set_aside(start, dir, backup)
        },
        ReplaceState::MoveNew(None) => files == start && !start.dom().contains(dir),
        ReplaceState::MoveBack(backup) => {
            &&& start.dom().contains(dir)
            &&& !start.dom().contains(backup)
            &&& files == set_aside(start, dir, backup)
        },
        ReplaceState::Discard => {
            ||| files == start
            ||| start.dom().contains(dir) && exists|backup: Seq<char>|
                !start.dom().contains(backup) && files == #[trigger] set_aside(start, dir, backup)
        },
        ReplaceState::DropOld(backup) => {
            &&& !start.dom().contains(backup)
            &&& files.remove(backup) == replaced(start, temp, dir)
        },
        ReplaceState::Done => files == replaced(start, temp, dir),
        ReplaceState::Failed => {
            ||| files == start
            ||| files.remove(temp) == start.remove(temp)
            ||| start.dom().contains(dir) && exists|backup: Seq<char>|
                !start.dom().contains(backup) && #[trigger] files.remove(backup) == start
            ||| start.dom().contains(dir) && exists|backup: Seq<char>|
                !start.dom().contains(backup) && files.remove(temp) == (
                #[trigger] set_aside(start, dir, backup)).remove(temp)
            ||| exists|backup: Seq<char>|
                !start.dom().contains(backup) && #[trigger] files.remove(backup) == replaced(
                    start,
                    temp,
                    dir,
                )
        },
    }
}

/// Whatever the actions come to, each step of a replacement keeps what is true in the state. So a
/// replacement that is done has put the new directory in place of the old one and left nothing else
/// behind, neither at the place where the new one stood nor at the one that the old one was moved
/// to.
pub proof fn law_replacement_steps(
    state: ReplaceState<Seq<char>>,
    event: ReplaceEvent<Seq<char>>,
    start: Files,
    before: Files,
    after: Files,
    temp: Seq<char>,
    dir: Seq<char>,
)
    requires
        temp != dir,
        start.dom().contains(temp),
        holds_in(state, start, before, temp, dir),
        leaves(before, action_in(state, temp, dir), event, after),
    ensures
        holds_in(state_after(state, event), start, after, temp, dir),
{
    match state {
        ReplaceState::MakeBackup => {
            if let ReplaceEvent::Made(backup) = event {
                let thing = choose|thing: int| after == #[trigger] before.insert(backup, thing);
                assert(after.remove(backup) =~= start);
            }
        },
        ReplaceState::ClearBackup(backup) => {
            assert(after.remove(backup) == before.remove(backup));
            if event is Done {
                assert(after =~= start);
            }
        },
        ReplaceState::MoveOld(backup) => {
            assert(set_aside(start, dir, backup) == start.remove(dir).insert(backup, start[dir]));
        },
        ReplaceState::MoveNew(Some(backup)) => {
            if event is Done {
                assert(after.remove(backup) =~= replaced(start, temp, dir));
            }
        },
        ReplaceState::MoveBack(backup) => {
            if event is Done {
                assert(after =~= start);
            } else {
                assert(after == set_aside(start, dir, backup));
            }
        },
        ReplaceState::Discard => {
            assert(after.remove(temp) == before.remove(temp)) by {
                assert(before.remove(temp).remove(temp) =~= before.remove(temp));
            }
            if before != start {
                let backup = choose|backup: Seq<char>|
                    !start.dom().contains(backup) && before == #[trigger] set_aside(
                        start,
                        dir,
                        backup,
                    );
                assert(after.remove(temp) == set_aside(start, dir, backup).remove(temp));
            }
        },
        ReplaceState::DropOld(backup) => {
            assert(after.remove(backup) == before.remove(backup)) by {
                assert(before.remove(backup).remove(backup) =~= before.remove(backup));
            }
        },
        _ => {},
    }
}

/// A replacement that is done has the new directory in place, and nothing stands where it stood; all
/// other paths are as they were, so that of the old directory nothing is left anywhere else.
pub proof fn law_done_replacement(
    start: Files,
    files: Files,
    temp: Seq<char>,
    dir: Seq<char>,
    path: Seq<char>,
)
    requires
        temp != dir,
        start.dom().contains(temp),
        holds_in(ReplaceState::Done, start, files, temp, dir),
    ensures
        stands(files, dir, start[temp]),
        !files.dom().contains(temp),
        path != temp && path != dir ==> {
            &&& files.dom().contains(path) <==> start.dom().contains(path)
            &&& files.dom().contains(path) ==> files[path] == start[path]
        },
{
}

/// A replacement that failed has lost no package: the new one is in place, or the old one stands
/// somewhere, or there was none and there is none.
pub proof fn law_failed_replacement_loses_nothing(
    start: Files,
    files: Files,
    temp: Seq<char>,
    dir: Seq<char>,
)
    requires
        temp != dir,
        start.dom().contains(temp),
        holds_in(ReplaceState::Failed, start, files, temp, dir),
    ensures
        ({
            ||| stands(files, dir, start[temp])
            ||| start.dom().contains(dir) && exists|path: Seq<char>| #[trigger]
                stands(files, path, start[dir])
            ||| !start.dom().contains(dir) && !files.dom().contains(dir)
        }),
{
    let has_old = start.dom().contains(dir);
    if files == start {
        if has_old {
            assert(stands(files, dir, start[dir]));
        }
    } else if files.remove(temp) == start.remove(temp) {
        assert(files.remove(temp).dom().contains(dir) == start.remove(temp).dom().contains(dir));
        if has_old {
            assert(files.remove(temp)[dir] == start.remove(temp)[dir]);
            assert(stands(files, dir, start[dir]));
        }
    } else if has_old && exists|backup: Seq<char>|
        !start.dom().contains(backup) && #[trigger] files.remove(backup) == start {
        let backup = choose|backup: Seq<char>|
            !start.dom().contains(backup) && #[trigger] files.remove(backup) == start;
        assert(stands(files.remove(backup), dir, start[dir]));
        assert(stands(files, dir, start[dir]));
    } else if has_old && exists|backup: Seq<char>|
        !start.dom().contains(backup) && files.remove(temp) == (
        #[trigger] set_aside(start, dir, backup)).remove(temp) {
        let backup = choose|backup: Seq<char>|
            !start.dom().contains(backup) && files.remove(temp) == (
            #[trigger] set_aside(start, dir, backup)).remove(temp);
        assert(backup != temp);
        assert(stands(set_aside(start, dir, backup).remove(temp), backup, start[dir]));
        assert(stands(files.remove(temp), backup, start[dir]));
        assert(stands(files, backup, start[dir]));
    } else {
        let backup = choose|backup: Seq<char>|
            !start.dom().contains(backup) && #[trigger] files.remove(backup) == replaced(
                start,
                temp,
                dir,
            );
        assert(stands(replaced(start, temp, dir), dir, start[temp]));
        assert(stands(files.remove(backup), dir, start[temp]));
    }
}

/// When the new directory cannot be moved in and the old one can be moved back, the old one is in
/// place in the end, whether or not the new one could be removed.
pub proof fn law_failed_replacement_is_undone(
    backup: Seq<char>,
    start: Files,
    first: Files,
    second: Files,
    third: Files,
    last: Files,
    removal: ReplaceEvent<Seq<char>>,
    temp: Seq<char>,
    dir: Seq<char>,
)
    requires
        temp != dir,
        holds_in(ReplaceState::MoveNew(Some(backup)), start, first, temp, dir),
        leaves(
            first,
            action_in(ReplaceState::MoveNew(Some(backup)), temp, dir),
            ReplaceEvent::Failed,
            second,
        ),
        leaves(
            second,
            action_in(
                state_after(ReplaceState::MoveNew(Some(backup)), ReplaceEvent::Failed),
                temp,
                dir,
            ),
            ReplaceEvent::Done,
            third,
        ),
        leaves(third, action_in(ReplaceState::Discard, temp, dir), removal, last),
    ensures
        state_after(
            state_after(
                state_after(ReplaceState::MoveNew(Some(backup)), ReplaceEvent::Failed),
                ReplaceEvent::Done,
            ),
            removal,
        ) == ReplaceState::<Seq<char>>::Failed,
        third == start,
        stands(last, dir, start[dir]),
{
    assert(third =~= start);
    assert(stands(third, dir, start[dir]));
    assert(stands(third.remove(temp), dir, start[dir]));
    assert(last.remove(temp) == third.remove(temp)) by {
        assert(third.remove(temp).remove(temp) =~= third.remove(temp));
    }
    assert(stands(last.remove(temp), dir, start[dir]));
}

/// A replacement whose actions all succeed is done: at once where there is no old directory, and
/// where there is one after it was moved aside and removed.
pub proof fn law_replacement_succeeds(backup: Seq<char>, temp: Seq<char>, dir: Seq<char>)
    ensures
        ({
            let looked = ReplaceState::<Seq<char>>::Look;
            let new = state_after(looked, ReplaceEvent::Missing);
            &&& action_in(looked, temp, dir) == ReplaceAction::Look(dir)
            &&& action_in(new, temp, dir) == (ReplaceAction::Move { from: temp, to: dir })
            &&& state_after(new, ReplaceEvent::Done) == ReplaceState::<Seq<char>>::Done
        }),
        ({
            let old_there = state_after(ReplaceState::Look, ReplaceEvent::Exists);
            let made = state_after(old_there, ReplaceEvent::Made(backup));
            let cleared = state_after(made, ReplaceEvent::Done);
            let aside = state_after(cleared, ReplaceEvent::Done);
            let moved = state_after(aside, ReplaceEvent::Done);
            let dropped = state_after(moved, ReplaceEvent::Done);
            &&& action_in(old_there, temp, dir) == ReplaceAction::<Seq<char>>::MakeBackup
            &&& action_in(made, temp, dir) == ReplaceAction::Remove(backup)
            &&& action_in(cleared, temp, dir) == (ReplaceAction::Move { from: dir, to: backup })
            &&& action_in(aside, temp, dir) == (ReplaceAction::Move { from: temp, to: dir })
            &&& action_in(moved, temp, dir) == ReplaceAction::Remove(backup)
            &&& dropped == ReplaceState::<Seq<char>>::Done
            &&& action_in(dropped, temp, dir) == ReplaceAction::<Seq<char>>::Succeed
        }),
{
}

/// A replacement whose new directory could not be moved in moves the old one back, if there was one,
/// and removes the new one before it gives up, whatever comes of that; and it gives up at once where
/// something fails before.
pub proof fn law_replacement_gives_up(
    backup: Seq<char>,
    temp: Seq<char>,
    dir: Seq<char>,
    back: ReplaceEvent<Seq<char>>,
    away: ReplaceEvent<Seq<char>>,
)
    ensures
        ({
            let failed = state_after(
                ReplaceState::MoveNew(Some(backup)),
                ReplaceEvent::Failed,
            );
            let returned = state_after(failed, back);
            &&& action_in(failed, temp, dir) == (ReplaceAction::Move { from: backup, to: dir })
            &&& action_in(returned, temp, dir) == ReplaceAction::Remove(temp)
            &&& state_after(returned, away) == ReplaceState::<Seq<char>>::Failed
        }),
        ({
            let failed = state_after(ReplaceState::MoveNew(None), ReplaceEvent::Failed);
            &&& action_in(failed, temp, dir) == ReplaceAction::Remove(temp)
            &&& state_after(failed, away) == ReplaceState::<Seq<char>>::Failed
        }),
        state_after(ReplaceState::Look, ReplaceEvent::Failed) == ReplaceState::<Seq<char>>::Failed,
        state_after(ReplaceState::MakeBackup, ReplaceEvent::Failed) == ReplaceState::<
            Seq<char>,
        >::Failed,
        state_after(ReplaceState::ClearBackup(backup), ReplaceEvent::Failed) == ReplaceState::<
            Seq<char>,
        >::Failed,
        state_after(ReplaceState::MoveOld(backup), ReplaceEvent::Failed) == ReplaceState::<
            Seq<char>,
        >::Failed,
        state_after(ReplaceState::DropOld(backup), ReplaceEvent::Failed) == ReplaceState::<
            Seq<char>,
        >::Failed,
        action_in(ReplaceState::Failed, temp, dir) == ReplaceAction::<Seq<char>>::Fail,
{
}

} // verus!
