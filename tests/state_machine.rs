use shanimation_rs::behaviour::{Behaviour, FrameView, RenderableParams};
use shanimation_rs::color::Rgba;
use shanimation_rs::finite_state_machine::{FSMBuilder, FSMBuilderError, FSMError, FSMState, FiniteStateMachine, StateName};
use shanimation_rs::frame::Img;
use shanimation_rs::geometry::{Point, ONE};

#[derive(Clone, Debug, PartialEq)]
struct Step {
    colour: u8,
    next: Option<String>,
    log: Vec<String>,
}

impl FSMState for Step {
    fn process_spec(
        &self,
        params: RenderableParams,
        _time: u64,
        next: Self,
        next_params: RenderableParams,
        request: Option<String>,
    ) -> bool {
        request == self.next && next.colour == self.colour && next_params.position.x == params.position.x + 1
    }

    fn entry_spec(&self, _from: Option<StateName>, next: Self) -> bool {
        next.colour == self.colour && next.log.len() == self.log.len() + 1
    }

    fn exit_spec(&self, _to: StateName, next: Self) -> bool {
        next.colour == self.colour && next.log.len() == self.log.len() + 1
    }

    fn shade_spec(&self, _frame: FrameView, _uv: Point, _time: u64) -> Rgba {
        Rgba::new(self.colour, 0, 0, 255)
    }

    fn process(&mut self, params: &mut RenderableParams, _time: u64) -> Option<String> {
        params.position.x += 1;
        self.log.push("process".to_owned());
        self.next.clone()
    }

    fn get_pixel(&self, _frame: &Img, _uv: Point, _time: u64) -> Rgba {
        Rgba::new(self.colour, 0, 0, 255)
    }

    fn entry(&mut self, from: Option<String>) {
        self.log.push(format!("entry from {:?}", from));
    }

    fn duplicate(&self) -> Self {
        self.clone()
    }

    fn exit(&mut self, to: String) {
        self.log.push(format!("exit to {}", to));
    }
}

fn step(colour: u8, next: Option<&str>) -> Step {
    Step { colour, next: next.map(|s| s.to_owned()), log: vec![] }
}

fn params() -> RenderableParams {
    let mut b = shanimation_rs::scene::Renderable::<Step>::builder();
    b.with_behaviour(step(0, None));
    b.build().unwrap().params
}

fn shade_of(m: &FiniteStateMachine<Step>) -> Rgba {
    m.shade(&Img::new(1, 1), Point::new(ONE / 2, ONE / 2), 0)
}

#[test]
fn builder_errors() {
    let b: FSMBuilder<Step> = FiniteStateMachine::builder();
    assert_eq!(b.build().err(), Some(FSMBuilderError::NoStates));

    let mut b = FSMBuilder::new();
    b.add_state("idle".to_owned(), step(1, None));
    assert_eq!(b.build().err(), Some(FSMBuilderError::NoInitState));

    let mut b = FSMBuilder::new();
    b.add_state("idle".to_owned(), step(1, None)).init_state("missing".to_owned());
    assert_eq!(b.build().err(), Some(FSMBuilderError::FailedToInit));
}

#[test]
fn build_enters_initial_state() {
    let mut b = FSMBuilder::new();
    b.add_state("idle".to_owned(), step(1, None))
        .add_state("run".to_owned(), step(2, None))
        .init_state("run".to_owned());
    let m = b.build().unwrap();
    let core = m.get_core();
    assert_eq!(core.get_state("run").unwrap().log, vec!["entry from None".to_owned()]);
    assert!(core.get_state("idle").unwrap().log.is_empty());
    assert_eq!(shade_of(&m), Rgba::new(2, 0, 0, 255));
}

#[test]
fn builder_replaces_state_of_same_name() {
    let mut b = FSMBuilder::new();
    b.add_state("idle".to_owned(), step(1, None)).add_state("idle".to_owned(), step(5, None));
    assert_eq!(b.states.len(), 1);
    b.init_state("idle".to_owned());
    let m = b.build().unwrap();
    assert_eq!(shade_of(&m), Rgba::new(5, 0, 0, 255));
}

#[test]
fn update_runs_active_state_and_changes_on_request() {
    let mut b = FSMBuilder::new();
    b.add_state("idle".to_owned(), step(1, Some("run")))
        .add_state("run".to_owned(), step(2, None))
        .init_state("idle".to_owned());
    let mut m = b.build().unwrap();
    let mut p = params();
    m.update(&mut p, 0);
    assert_eq!(p.position.x, 1);
    assert_eq!(shade_of(&m), Rgba::new(2, 0, 0, 255));
    let core = m.get_core();
    assert_eq!(
        core.get_state("idle").unwrap().log,
        vec!["entry from None".to_owned(), "process".to_owned(), "exit to run".to_owned()]
    );
    assert_eq!(core.get_state("run").unwrap().log, vec!["entry from Some(\"idle\")".to_owned()]);
    m.update(&mut p, 1);
    assert_eq!(p.position.x, 2);
    assert_eq!(shade_of(&m), Rgba::new(2, 0, 0, 255));
}

#[test]
fn request_for_missing_state_keeps_active_state() {
    let mut b = FSMBuilder::new();
    b.add_state("idle".to_owned(), step(1, Some("nowhere"))).init_state("idle".to_owned());
    let mut m = b.build().unwrap();
    let mut p = params();
    m.update(&mut p, 0);
    assert_eq!(shade_of(&m), Rgba::new(1, 0, 0, 255));
}

#[test]
fn core_add_remove_and_change() {
    let mut b = FSMBuilder::new();
    b.add_state("a".to_owned(), step(1, None)).init_state("a".to_owned());
    let m = b.build().unwrap();
    let mut core = m.into_core();
    assert!(matches!(core.add_state("a", step(9, None)), Err(FSMError::AddState)));
    assert!(core.add_state("b", step(2, None)).is_ok());
    assert!(matches!(core.change_state("c"), Err(FSMError::StateDoesntExist(n)) if n == "c"));
    assert!(core.change_state("b").is_ok());
    assert_eq!(core.get_state("a").unwrap().log.last().unwrap(), "exit to b");
    assert!(matches!(core.remove_state("zzz"), Err(FSMError::StateDoesntExist(n)) if n == "zzz"));
    assert!(core.remove_state("a").is_ok());
    assert!(matches!(core.get_state("a"), Err(FSMError::StateDoesntExist(n)) if n == "a"));
    assert!(core.init_state().is_ok());
    assert!(core.remove_state("b").is_ok());
    assert!(matches!(core.init_state(), Err(FSMError::StateDoesntExist(n)) if n == "b"));
    let mut p = params();
    assert!(core.run_process(&mut p, 0).is_err());
}

#[test]
fn get_state_mut_changes_only_that_state() {
    let mut b = FSMBuilder::new();
    b.add_state("a".to_owned(), step(1, None)).add_state("b".to_owned(), step(2, None)).init_state("a".to_owned());
    let mut core = b.build().unwrap().into_core();
    core.get_state_mut("b").unwrap().colour = 7;
    assert_eq!(core.get_state("b").unwrap().colour, 7);
    assert_eq!(core.get_state("a").unwrap().colour, 1);
    assert!(matches!(core.get_state_mut("c"), Err(FSMError::StateDoesntExist(n)) if n == "c"));
}
