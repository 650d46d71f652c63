//! A behaviour made of named states, one of them active at a time.
use vstd::prelude::*;
use crate::behaviour::{Behaviour, FrameView, RenderableParams};
use crate::color::{Rgba, transparent_spec};
use crate::frame::Img;
use crate::geometry::Point;

verus! {

#[derive(Debug)]
pub enum FSMError {
    /// A state of that name is already present.
    AddState,
    /// No state has the given name.
    StateDoesntExist(String),
    OwnershipIssue,
}

#[derive(Clone, Copy, Debug, PartialEq, Eq, Structural)]
pub enum FSMBuilderError {
    NoInitState,
    NoStates,
    FailedToInit,
}

/// The characters of a state's name, as the contracts see them.
pub type StateName = Seq<char>;

/// The name a hook is told, as the contracts see it.
pub open spec fn name_view(from: Option<String>) -> Option<StateName> {
    match from {
        Some(s) => Some(s@),
        None => None,
    }
}

/// One state of a machine. `process` updates the node while the state is
/// active and may name a state to change to; `exit` runs on the old state
/// and then `entry` on the new one, each told the other's name. An
/// implementation states in the `_spec` functions what each method does.
pub trait FSMState: Sized {
    /// What one `process` at `time` may leave behind, and the change it asks for.
    spec fn process_spec(
        &self,
        params: RenderableParams,
        time: u64,
        next: Self,
        next_params: RenderableParams,
        request: Option<String>,
    ) -> bool;

    /// The state after `entry`, told the name of the state left, if any.
    spec fn entry_spec(&self, from: Option<StateName>, next: Self) -> bool;

    /// The state after `exit`, told the name of the state entered.
    spec fn exit_spec(&self, to: StateName, next: Self) -> bool;

    /// The colour that `get_pixel` returns.
    spec fn shade_spec(&self, frame: FrameView, uv: Point, time: u64) -> Rgba;

    fn process(&mut self, params: &mut RenderableParams, time: u64) -> (request: Option<String>)
        ensures
            old(self).process_spec(*old(params), time, *final(self), *final(params), request),
    ;

    fn get_pixel(&self, frame: &Img, uv: Point, time: u64) -> (c: Rgba)
        ensures
            c == self.shade_spec(frame@, uv, time),
    ;

    fn entry(&mut self, from: Option<String>)
        ensures
            old(self).entry_spec(name_view(from), *final(self)),
    ;

    fn exit(&mut self, to: String)
        ensures
            old(self).exit_spec(to@, *final(self)),
    ;

    /// A copy for a frame snapshot, which shades as this one does.
    fn duplicate(&self) -> (r: Self)
        ensures
            forall|frame: FrameView, uv: Point, time: u64|
                #[trigger] r.shade_spec(frame, uv, time) == self.shade_spec(frame, uv, time),
    ;
}

/// States with the same names are found at the same index.
proof fn lemma_find_same_names<S, T>(a: Seq<(String, S)>, b: Seq<(String, T)>, name: Seq<char>, i: int)
    requires
        a.len() == b.len(),
        forall|k: int| 0 <= k < a.len() ==> (#[trigger] a[k]).0@ == b[k].0@,
    ensures
        find_from(a, name, i) == find_from(b, name, i),
    decreases a.len() - i,
{
    if 0 <= i < a.len() {
        lemma_find_same_names(a, b, name, i + 1);
    }
}

/// Only the states at `i` and `j` may differ, and no name changes.
pub open spec fn others_kept<S>(s0: Seq<(String, S)>, i: int, j: int, s1: Seq<(String, S)>) -> bool {
    &&& s1.len() == s0.len()
    &&& forall|k: int| 0 <= k < s0.len() ==> (#[trigger] s1[k]).0 == s0[k].0
    &&& forall|k: int| 0 <= k < s0.len() && k != i && k != j ==> #[trigger] s1[k] == s0[k]
}

/// The states after changing from `cur` to `name`: exactly one `exit`, on
/// the state named `cur` if there is one, told `name`; then exactly one
/// `entry`, on the state named `name`, told `cur`; nothing else.
pub open spec fn change_spec<S: FSMState>(s0: Seq<(String, S)>, cur: StateName, name: StateName, s1: Seq<(String, S)>) -> bool {
    let ci = find_spec(s0, cur);
    let ni = find_spec(s0, name);
    &&& ni >= 0
    &&& others_kept(s0, ci, ni, s1)
    &&& if ci < 0 {
        s0[ni].1.entry_spec(Some(cur), s1[ni].1)
    } else if ci == ni {
        exists|mid: S| s0[ci].1.exit_spec(name, mid) && #[trigger] mid.entry_spec(Some(cur), s1[ni].1)
    } else {
        s0[ci].1.exit_spec(name, s1[ci].1) && s0[ni].1.entry_spec(Some(cur), s1[ni].1)
    }
}

/// The states after the state at `i` was entered with no previous state.
pub open spec fn entered_spec<S: FSMState>(s0: Seq<(String, S)>, i: int, s1: Seq<(String, S)>) -> bool {
    &&& 0 <= i < s0.len()
    &&& others_kept(s0, i, i, s1)
    &&& s0[i].1.entry_spec(None, s1[i].1)
}

/// One step of a machine whose active state is `cur`: the state named `cur`
/// runs `process` once; if it asks for a state that is there, the machine
/// changes to it; without an active state nothing happens.
pub open spec fn process_step<S: FSMState>(
    s0: Seq<(String, S)>,
    cur: StateName,
    params: RenderableParams,
    time: u64,
    s1: Seq<(String, S)>,
    cur1: StateName,
    params1: RenderableParams,
) -> bool {
    let i = find_spec(s0, cur);
    if i < 0 {
        s1 == s0 && cur1 == cur && params1 == params
    } else {
        exists|mid: S, request: Option<String>|
            #[trigger] s0[i].1.process_spec(params, time, mid, params1, request) && {
                let s_mid = s0.update(i, (s0[i].0, mid));
                match request {
                    Some(n) => if find_spec(s_mid, n@) >= 0 {
                        change_spec(s_mid, cur, n@, s1) && cur1 == n@
                    } else {
                        s1 == s_mid && cur1 == cur
                    },
                    None => s1 == s_mid && cur1 == cur,
                }
            }
    }
}

/// The index of the first state named `name` at or after `i`, or -1.
pub open spec fn find_from<S>(states: Seq<(String, S)>, name: Seq<char>, i: int) -> int
    decreases states.len() - i,
{
    if i < 0 || i >= states.len() {
        -1
    } else if states[i].0@ == name {
        i
    } else {
        find_from(states, name, i + 1)
    }
}

/// The index of the state named `name`, or -1.
pub open spec fn find_spec<S>(states: Seq<(String, S)>, name: Seq<char>) -> int {
    find_from(states, name, 0)
}

proof fn lemma_find_from<S>(states: Seq<(String, S)>, name: Seq<char>, i: int)
    requires
        0 <= i <= states.len(),
    ensures
        -1 <= find_from(states, name, i) < states.len(),
        find_from(states, name, i) >= 0 ==> find_from(states, name, i) >= i && states[find_from(
            states,
            name,
            i,
        )].0@ == name,
        find_from(states, name, i) == -1 <==> forall|k: int| i <= k < states.len() ==> states[k].0@ != name,
    decreases states.len() - i,
{
    if i < states.len() {
        lemma_find_from(states, name, i + 1);
    }
}

/// The state's index in `states`, found by name.
fn find_state<S>(states: &Vec<(String, S)>, name: &String) -> (r: Option<usize>)
    ensures
        r matches Some(i) ==> i as int == find_spec(states@, name@),
        r is None <==> find_spec(states@, name@) < 0,
        r matches Some(i) ==> i < states@.len() && states@[i as int].0@ == name@,
        r is None ==> forall|k: int| 0 <= k < states@.len() ==> states@[k].0@ != name@,
{
    proof {
        lemma_find_from(states@, name@, 0);
    }
    let mut i: usize = 0;
    while i < states.len()
        invariant
            i <= states@.len(),
            find_from(states@, name@, i as int) == find_spec(states@, name@),
            forall|k: int| 0 <= k < i ==> states@[k].0@ != name@,
        decreases states@.len() - i,
    {
        if states[i].0 == *name {
            return Some(i);
        }
        i = i + 1;
    }
    None
}

/// The states by name and the name of the active one.
pub struct FSMCore<S> {
    states: Vec<(String, S)>,
    state: String,
}

impl<S> FSMCore<S> {
    pub closed spec fn states_spec(&self) -> Seq<(String, S)> {
        self.states@
    }

    /// The names of the states, in the order they were added.
    pub open spec fn names(&self) -> Seq<Seq<char>> {
        self.states_spec().map_values(|p: (String, S)| p.0@)
    }

    /// The name of the active state.
    pub closed spec fn state_spec(&self) -> Seq<char> {
        self.state@
    }

    pub open spec fn has(&self, name: Seq<char>) -> bool {
        self.names().contains(name)
    }

    /// Adds a state under `name`, unless one of that name is present.
    pub fn add_state(&mut self, name: &str, state: S) -> (r: Result<(), FSMError>)
        ensures
            r is Ok <==> !old(self).has(name@),
            r is Ok ==> final(self).states_spec() == old(self).states_spec().push(
                (final(self).states_spec().last().0, state),
            ) && final(self).states_spec().last().0@ == name@,
            r is Err ==> final(self).states_spec() == old(self).states_spec() && r == Err::<(), FSMError>(
                FSMError::AddState,
            ),
            final(self).state_spec() == old(self).state_spec(),
    {
        let key = name.to_owned();
        proof {
            self.lemma_has(name@);
            lemma_find_from(self.states@, name@, 0);
        }
        match find_state(&self.states, &key) {
            Some(_) => Err(FSMError::AddState),
            None => {
                self.states.push((key, state));
                Ok(())
            },
        }
    }

    proof fn lemma_has(&self, name: Seq<char>)
        ensures
            self.has(name) <==> exists|k: int| 0 <= k < self.states@.len() && self.states@[k].0@ == name,
    {
        if self.has(name) {
            let k = choose|k: int| 0 <= k < self.names().len() && self.names()[k] == name;
            assert(self.states@[k].0@ == name);
        }
        if exists|k: int| 0 <= k < self.states@.len() && self.states@[k].0@ == name {
            let k = choose|k: int| 0 <= k < self.states@.len() && self.states@[k].0@ == name;
            assert(self.names()[k] == name);
        }
    }

    /// Removes the state named `name`.
    pub fn remove_state(&mut self, name: &str) -> (r: Result<(), FSMError>)
        ensures
            r is Ok <==> old(self).has(name@),
            r is Ok ==> final(self).states_spec() == old(self).states_spec().remove(
                find_spec(old(self).states_spec(), name@),
            ),
            r matches Err(e) ==> final(self).states_spec() == old(self).states_spec() && (
            e matches FSMError::StateDoesntExist(n) && n@ == name@),
            final(self).state_spec() == old(self).state_spec(),
    {
        let key = name.to_owned();
        proof {
            self.lemma_has(name@);
            lemma_find_from(self.states@, name@, 0);
        }
        match find_state(&self.states, &key) {
            Some(i) => {
                let _ = self.states.remove(i);
                Ok(())
            },
            None => Err(FSMError::StateDoesntExist(key)),
        }
    }

    /// The state named `name`.
    pub fn get_state(&self, name: &str) -> (r: Result<&S, FSMError>)
        ensures
            r is Ok <==> self.has(name@),
            r matches Ok(s) ==> *s == self.states_spec()[find_spec(self.states_spec(), name@)].1,
            r matches Err(e) ==> e matches FSMError::StateDoesntExist(n) && n@ == name@,
    {
        let key = name.to_owned();
        proof {
            self.lemma_has(name@);
            lemma_find_from(self.states@, name@, 0);
        }
        match find_state(&self.states, &key) {
            Some(i) => {
                Ok(&self.states[i].1)
            },
            None => Err(FSMError::StateDoesntExist(key)),
        }
    }

    /// Mutable access to the state named `name`.
    pub fn get_state_mut(&mut self, name: &str) -> (r: Result<&mut S, FSMError>)
        ensures
            r is Ok <==> old(self).has(name@),
            r matches Ok(st) ==> *st == old(self).states_spec()[find_spec(old(self).states_spec(), name@)].1
                && final(self).states_spec() == old(self).states_spec().update(
                find_spec(old(self).states_spec(), name@),
                (old(self).states_spec()[find_spec(old(self).states_spec(), name@)].0, *final(st)),
            ) && final(self).state_spec() == old(self).state_spec(),
            r matches Err(e) ==> *final(self) == *old(self) && (e matches FSMError::StateDoesntExist(
                n,
            ) && n@ == name@),
    {
        let key = name.to_owned();
        proof {
            self.lemma_has(name@);
            lemma_find_from(self.states@, name@, 0);
        }
        match find_state(&self.states, &key) {
            Some(i) => Ok(&mut self.states[i].1),
            None => Err(FSMError::StateDoesntExist(key)),
        }
    }

    /// Makes `name` the active state: the old state's `exit` runs, told the
    /// new name, then the new state's `entry`, told the old name.
    pub fn change_state(&mut self, name: &str) -> (r: Result<(), FSMError>)
        where
            S: FSMState,
        ensures
            r is Ok <==> old(self).has(name@),
            r is Ok ==> final(self).state_spec() == name@ && change_spec(
                old(self).states_spec(),
                old(self).state_spec(),
                name@,
                final(self).states_spec(),
            ),
            r matches Err(e) ==> *final(self) == *old(self) && (e matches FSMError::StateDoesntExist(
                n,
            ) && n@ == name@),
            final(self).names() == old(self).names(),
    {
        let key = name.to_owned();
        proof {
            self.lemma_has(name@);
            lemma_find_from(self.states@, name@, 0);
        }
        let next = match find_state(&self.states, &key) {
            Some(i) => i,
            None => {
                return Err(FSMError::StateDoesntExist(key));
            },
        };
        let ghost names0 = self.names();
        let ghost s0 = self.states@;
        let ghost ci = find_spec(s0, self.state@);
        proof {
            lemma_find_from(s0, self.state@, 0);
        }
        if let Some(cur) = find_state(&self.states, &self.state) {
            self.states[cur].1.exit(name.to_owned());
        }
        let ghost s_exit = self.states@;
        assert(self.names() =~= names0);
        let from = self.state.clone();
        self.states[next].1.entry(Some(from));
        assert(self.names() =~= names0);
        proof {
            let s1 = self.states@;
            assert forall|k: int| 0 <= k < s0.len() implies (#[trigger] s1[k]).0 == s0[k].0 by {
                assert(self.names()[k] == names0[k]);
            }
            if ci >= 0 && ci == next {
                assert(s0[ci].1.exit_spec(name@, s_exit[ci].1) && s_exit[ci].1.entry_spec(Some(self.state@), s1[next as int].1));
            }
        }
        self.state = key;
        Ok(())
    }

    /// Runs the active state's `entry`, as the machine starts.
    pub fn init_state(&mut self) -> (r: Result<(), FSMError>)
        where
            S: FSMState,
        ensures
            r is Ok <==> old(self).has(old(self).state_spec()),
            r is Ok ==> entered_spec(
                old(self).states_spec(),
                find_spec(old(self).states_spec(), old(self).state_spec()),
                final(self).states_spec(),
            ),
            r matches Err(e) ==> *final(self) == *old(self) && (e matches FSMError::StateDoesntExist(
                n,
            ) && n@ == old(self).state_spec()),
            final(self).names() == old(self).names(),
            final(self).state_spec() == old(self).state_spec(),
    {
        proof {
            self.lemma_has(self.state@);
        }
        match find_state(&self.states, &self.state) {
            Some(i) => {
                let ghost names0 = self.names();
                let ghost s0 = self.states@;
                self.states[i].1.entry(None);
                assert(self.names() =~= names0);
                proof {
                    let s1 = self.states@;
                    assert forall|k: int| 0 <= k < s0.len() implies (#[trigger] s1[k]).0 == s0[k].0 by {
                        assert(self.names()[k] == names0[k]);
                    }
                }
                Ok(())
            },
            None => Err(FSMError::StateDoesntExist(self.state.clone())),
        }
    }

    /// Runs the active state's `process` and, if it names a state, changes
    /// to that state.
    pub fn run_process(&mut self, params: &mut RenderableParams, time: u64) -> (r: Result<(), FSMError>)
        where
            S: FSMState,
        ensures
            !old(self).has(old(self).state_spec()) ==> r is Err && *final(self) == *old(self),
            old(self).has(old(self).state_spec()) ==> final(self).has(final(self).state_spec()),
            r is Err ==> final(self).state_spec() == old(self).state_spec(),
            final(self).names() == old(self).names(),
            process_step(
                old(self).states_spec(),
                old(self).state_spec(),
                *old(params),
                time,
                final(self).states_spec(),
                final(self).state_spec(),
                *final(params),
            ),
    {
        proof {
            self.lemma_has(self.state@);
            lemma_find_from(self.states@, self.state@, 0);
        }
        let i = match find_state(&self.states, &self.state) {
            Some(i) => i,
            None => {
                return Err(FSMError::StateDoesntExist(self.state.clone()));
            },
        };
        let ghost names0 = self.names();
        let ghost s0 = self.states@;
        let request = self.states[i].1.process(params, time);
        assert(self.names() =~= names0);
        let ghost mid = self.states@[i as int].1;
        assert(self.states@ =~= s0.update(i as int, (s0[i as int].0, mid)));
        let ghost s_mid = self.states@;
        let ghost p1 = *params;
        proof {
            lemma_find_from(s_mid, self.state@, 0);
        }
        let r = match request {
            Some(next) => {
                proof {
                    self.lemma_has(next@);
                    lemma_find_from(s_mid, next@, 0);
                }
                self.change_state(next.as_str())
            },
            None => Ok(()),
        };
        assert(s0[i as int].1.process_spec(*old(params), time, mid, p1, request));
        r
    }
}

/// A behaviour driven by named states; see `FSMState`.
pub struct FiniteStateMachine<S> {
    fsm: FSMCore<S>,
}

impl<S> FiniteStateMachine<S> {
    pub closed spec fn machine(&self) -> FSMCore<S> {
        self.fsm
    }

    pub fn builder() -> (b: FSMBuilder<S>)
        ensures
            b.states@.len() == 0,
            b.state@.len() == 0,
    {
        FSMBuilder::new()
    }

    pub fn get_core(&self) -> (r: &FSMCore<S>)
        ensures
            *r == self.machine(),
    {
        &self.fsm
    }

    pub fn into_core(self) -> (r: FSMCore<S>)
        ensures
            r == self.machine(),
    {
        self.fsm
    }
}

impl<S: FSMState> Behaviour for FiniteStateMachine<S> {
    open spec fn update_spec(&self, params: RenderableParams, time: u64, next: Self, next_params: RenderableParams) -> bool {
        process_step(
            self.machine().states_spec(),
            self.machine().state_spec(),
            params,
            time,
            next.machine().states_spec(),
            next.machine().state_spec(),
            next_params,
        )
    }

    open spec fn shade_spec(&self, frame: Seq<Rgba>, uv: Point, time: u64) -> Rgba {
        let states = self.machine().states_spec();
        let i = find_spec(states, self.machine().state_spec());
        if i >= 0 {
            states[i].1.shade_spec(frame, uv, time)
        } else {
            transparent_spec()
        }
    }

    /// Runs the active state's update; a change it asks for to a state that
    /// is not there leaves the active state as it was.
    fn update(&mut self, params: &mut RenderableParams, time: u64) {
        let _ = self.fsm.run_process(params, time);
    }

    fn duplicate(&self) -> (r: Self) {
        let mut states: Vec<(String, S)> = Vec::new();
        let mut i: usize = 0;
        while i < self.fsm.states.len()
            invariant
                i <= self.fsm.states@.len(),
                states@.len() == i,
                forall|k: int|
                    0 <= k < i ==> (#[trigger] states@[k]).0@ == self.fsm.states@[k].0@ && forall|
                        frame: FrameView,
                        uv: Point,
                        time: u64,
                    | #[trigger] states@[k].1.shade_spec(frame, uv, time)
                        == self.fsm.states@[k].1.shade_spec(frame, uv, time),
            decreases self.fsm.states@.len() - i,
        {
            let entry = &self.fsm.states[i];
            states.push((entry.0.clone(), entry.1.duplicate()));
            i = i + 1;
        }
        let r = FiniteStateMachine { fsm: FSMCore { states, state: self.fsm.state.clone() } };
        proof {
            lemma_find_same_names(self.fsm.states@, r.fsm.states@, self.fsm.state@, 0);
            lemma_find_from(self.fsm.states@, self.fsm.state@, 0);
            assert forall|frame: FrameView, uv: Point, time: u64|
                #[trigger] r.shade_spec(frame, uv, time) == self.shade_spec(frame, uv, time) by {
                let j = find_spec(self.fsm.states@, self.fsm.state@);
                if j >= 0 {
                    assert(r.fsm.states@[j].1.shade_spec(frame, uv, time) == self.fsm.states@[j].1.shade_spec(
                        frame,
                        uv,
                        time,
                    ));
                }
            }
        }
        r
    }

    fn shade(&self, frame: &Img, uv: Point, time: u64) -> (c: Rgba) {
        proof {
            lemma_find_from(self.fsm.states@, self.fsm.state@, 0);
        }
        match find_state(&self.fsm.states, &self.fsm.state) {
            Some(i) => self.fsm.states[i].1.get_pixel(frame, uv, time),
            None => Rgba::transparent(),
        }
    }
}

/// Collects the states of a machine and the name of the first active one.
pub struct FSMBuilder<S> {
    pub states: Vec<(String, S)>,
    pub state: String,
}

impl<S> FSMBuilder<S> {
    pub fn new() -> (b: FSMBuilder<S>)
        ensures
            b.states@.len() == 0,
            b.state@.len() == 0,
    {
        FSMBuilder { states: Vec::new(), state: String::new() }
    }

    /// Adds a state; one added earlier under the same name is replaced.
    pub fn add_state(&mut self, name: String, state: S) -> (r: &mut Self)
        ensures
            ({
                let i = find_spec(old(self).states@, name@);
                if i >= 0 {
                    r.states@ == old(self).states@.update(i, (old(self).states@[i].0, state))
                } else {
                    r.states@ == old(self).states@.push((name, state))
                }
            }),
            r.state == old(self).state,
            *final(self) == *final(r),
    {
        proof {
            lemma_find_from(self.states@, name@, 0);
        }
        match find_state(&self.states, &name) {
            Some(i) => {
                let ghost old_states = self.states@;
                self.states[i].1 = state;
                assert(self.states@ =~= old_states.update(i as int, (old_states[i as int].0, state)));
            },
            None => {
                self.states.push((name, state));
            },
        }
        self
    }

    /// Names the state the machine starts in.
    pub fn init_state(&mut self, name: String) -> (r: &mut Self)
        ensures
            r.state == name,
            r.states == old(self).states,
            *final(self) == *final(r),
    {
        self.state = name;
        self
    }

    /// The machine, started in its initial state (whose `entry` runs).
    pub fn build(self) -> (r: Result<FiniteStateMachine<S>, FSMBuilderError>)
        where
            S: FSMState,
        ensures
            self.states@.len() == 0 ==> r == Err::<FiniteStateMachine<S>, FSMBuilderError>(
                FSMBuilderError::NoStates,
            ),
            self.states@.len() > 0 && self.state@.len() == 0 ==> r == Err::<
                FiniteStateMachine<S>,
                FSMBuilderError,
            >(FSMBuilderError::NoInitState),
            self.states@.len() > 0 && self.state@.len() > 0 ==> (r == Err::<
                FiniteStateMachine<S>,
                FSMBuilderError,
            >(FSMBuilderError::FailedToInit) <==> find_spec(self.states@, self.state@) < 0),
            self.states@.len() > 0 && self.state@.len() > 0 && find_spec(self.states@, self.state@)
                >= 0 ==> r is Ok,
            r matches Ok(m) ==> m.machine().state_spec() == self.state@ && entered_spec(
                self.states@,
                find_spec(self.states@, self.state@),
                m.machine().states_spec(),
            ),
    {
        if self.states.len() == 0 {
            return Err(FSMBuilderError::NoStates);
        }
        if self.state.as_str().is_empty() {
            return Err(FSMBuilderError::NoInitState);
        }
        let mut fsm = FiniteStateMachine { fsm: FSMCore { states: self.states, state: self.state } };
        proof {
            lemma_find_from(fsm.fsm.states@, fsm.fsm.state@, 0);
            fsm.fsm.lemma_has(fsm.fsm.state@);
        }
        match fsm.fsm.init_state() {
            Ok(()) => Ok(fsm),
            Err(_) => Err(FSMBuilderError::FailedToInit),
        }
    }
}

} // verus!
