//! Scripts: an address space and the commands to run on it, under one
//! placement strategy or under each of the three.

use crate::algos::AllocationMethod;
use crate::area::{AError, AResult, Area, Layout};
use crate::cmd::{script, Cmd, CmdType, CmdVec, ParseError, ParseFault, ParseResult};
use vstd::prelude::*;

verus! {

/// The state after command `c` under strategy `m`.
pub open spec fn apply(l: Layout, c: Cmd, m: AllocationMethod) -> Layout {
    match c.ty {
        CmdType::Alloc => l.allocate(c.block_id.unwrap(), c.size.unwrap(), m),
        CmdType::Dealloc => l.dealloc(c.block_id.unwrap()),
        CmdType::Compact => l.compact(),
    }
}

/// How command `c` ends under strategy `m`.
pub open spec fn outcome(l: Layout, c: Cmd, m: AllocationMethod) -> AResult<()> {
    match c.ty {
        CmdType::Alloc => l.alloc_result(c.block_id.unwrap(), c.size.unwrap(), m),
        CmdType::Dealloc => l.dealloc_result(c.block_id.unwrap()),
        CmdType::Compact => l.compact_result(),
    }
}

/// The state after the commands `cmds`, run in their order from `l`. A
/// command that is refused changes nothing, and the run goes on.
pub open spec fn layout_after(l: Layout, cmds: Seq<Cmd>, m: AllocationMethod) -> Layout
    decreases cmds.len(),
{
    if cmds.len() == 0 {
        l
    } else {
        apply(layout_after(l, cmds.drop_last(), m), cmds.last(), m)
    }
}

/// The commands of `cmds` that are refused when run from `l`, each as its
/// place in `cmds` and the error, in the order of the run.
pub open spec fn errors_of(l: Layout, cmds: Seq<Cmd>, m: AllocationMethod) -> Seq<(usize, AError)>
    decreases cmds.len(),
{
    if cmds.len() == 0 {
        Seq::empty()
    } else {
        let before = errors_of(l, cmds.drop_last(), m);
        match outcome(layout_after(l, cmds.drop_last(), m), cmds.last(), m) {
            Ok(_) => before,
            Err(e) => before.push(((cmds.len() - 1) as usize, e)),
        }
    }
}

impl Area {
    /// Runs one command under the strategy `method`.
    pub fn exec(&mut self, cmd: &Cmd, method: AllocationMethod) -> (r: AResult<()>)
        requires
            old(self).wf(),
            cmd.wf(),
        ensures
            final(self).wf(),
            r == outcome(old(self)@, *cmd, method),
            final(self)@ == apply(old(self)@, *cmd, method),
    {
        match cmd.ty {
            CmdType::Alloc => self.allocate(cmd.block_id.unwrap(), cmd.size.unwrap(), method),
            CmdType::Dealloc => self.dealloc(cmd.block_id.unwrap()),
            CmdType::Compact => self.compact(),
        }
    }
}

/// Which strategies a simulation runs.
#[derive(Debug, Clone, Copy, PartialEq, Eq, Structural)]
pub enum RunOption {
    All,
    FirstFit,
    BestFit,
    WorstFit,
}

impl RunOption {
    /// The option that four switches ask for, in the order all, first, best,
    /// worst: the first that is on, and first-fit where none is.
    pub open spec fn of(all: bool, first: bool, best: bool, worst: bool) -> RunOption {
        if all {
            RunOption::All
        } else if first {
            RunOption::FirstFit
        } else if best {
            RunOption::BestFit
        } else if worst {
            RunOption::WorstFit
        } else {
            RunOption::FirstFit
        }
    }

    /// The strategies that the option stands for, in the order they run.
    pub open spec fn methods(self) -> Seq<AllocationMethod> {
        match self {
            RunOption::All => seq![
                AllocationMethod::FirstFit,
                AllocationMethod::BestFit,
                AllocationMethod::WorstFit,
            ],
            RunOption::FirstFit => seq![AllocationMethod::FirstFit],
            RunOption::BestFit => seq![AllocationMethod::BestFit],
            RunOption::WorstFit => seq![AllocationMethod::WorstFit],
        }
    }
}

impl From<(bool, bool, bool, bool)> for RunOption {
    fn from(switches: (bool, bool, bool, bool)) -> (r: Self)
        ensures
            r == RunOption::of(switches.0, switches.1, switches.2, switches.3),
    {
        let (all, first, best, worst) = switches;
        if all {
            Self::All
        } else if first {
            Self::FirstFit
        } else if best {
            Self::BestFit
        } else if worst {
            Self::WorstFit
        } else {
            Self::FirstFit
        }
    }
}

impl vstd::std_specs::convert::FromSpecImpl<(bool, bool, bool, bool)> for RunOption {
    open spec fn obeys_from_spec() -> bool {
        true
    }

    open spec fn from_spec(switches: (bool, bool, bool, bool)) -> Self {
        RunOption::of(switches.0, switches.1, switches.2, switches.3)
    }
}

/// One run: a strategy, the address space it works on, and the commands.
pub struct Run {
    pub method: AllocationMethod,
    pub area: Area,
    pub cmds: Vec<Cmd>,
}

impl Run {
    /// The address space is well-formed and so is every command.
    pub open spec fn wf(&self) -> bool {
        &&& self.area.wf()
        &&& forall|i: int| 0 <= i < self.cmds@.len() ==> (#[trigger] self.cmds@[i]).wf()
    }

    /// The run of the script `inp` under `method`, on a fresh address space
    /// of the size that the script gives.
    pub fn new(inp: &str, method: AllocationMethod) -> (r: Result<Self, ParseError>)
        ensures
            match r {
                Ok(run) => run.wf() && run.method == method && run.area@ == Layout::fresh(
                    run.area.size,
                ) && script(inp@) == Ok::<(u64, Seq<Cmd>), ParseFault>((run.area.size, run.cmds@)),
                Err(e) => script(inp@) == Err::<(u64, Seq<Cmd>), ParseFault>(e@),
            },
    {
        match Self::from_str(inp) {
            Ok((area, cmds)) => Ok(Run { method, area, cmds }),
            Err(err) => Err(err),
        }
    }

    /// Reads a script, and makes the address space of the size it gives.
    pub fn from_str(inp: &str) -> (r: ParseResult<(Area, Vec<Cmd>)>)
        ensures
            match r {
                Ok((area, cmds)) => {
                    &&& area.wf()
                    &&& area@ == Layout::fresh(area.size)
                    &&& forall|i: int| 0 <= i < cmds@.len() ==> (#[trigger] cmds@[i]).wf()
                    &&& script(inp@) == Ok::<(u64, Seq<Cmd>), ParseFault>((area.size, cmds@))
                },
                Err(e) => script(inp@) == Err::<(u64, Seq<Cmd>), ParseFault>(e@),
            },
    {
        match CmdVec::from_str(inp) {
            Ok(script) => Ok((Area::new(script.size), script.cmds)),
            Err(e) => Err(e),
        }
    }

    /// Runs the commands in their order and hands back those that were
    /// refused, each as its place among the commands and the error. A
    /// refused command changes nothing, and the run goes on with the next.
    pub fn run(&mut self) -> (errors: Vec<(usize, AError)>)
        requires
            old(self).wf(),
        ensures
            final(self).wf(),
            final(self).method == old(self).method,
            final(self).cmds@ == old(self).cmds@,
            final(self).area@ == layout_after(old(self).area@, old(self).cmds@, old(self).method),
            errors@ == errors_of(old(self).area@, old(self).cmds@, old(self).method),
    {
        let mut errors: Vec<(usize, AError)> = Vec::new();
        let mut i: usize = 0;
        while i < self.cmds.len()
            invariant
                i <= self.cmds.len(),
                self.wf(),
                self.method == old(self).method,
                self.cmds@ == old(self).cmds@,
                self.area@ == layout_after(
                    old(self).area@,
                    old(self).cmds@.take(i as int),
                    old(self).method,
                ),
                errors@ == errors_of(
                    old(self).area@,
                    old(self).cmds@.take(i as int),
                    old(self).method,
                ),
            decreases self.cmds.len() - i,
        {
            proof {
                let cmds = old(self).cmds@;
                assert(cmds.take(i + 1).drop_last() =~= cmds.take(i as int));
                assert(cmds.take(i + 1).last() == cmds[i as int]);
                assert(self.cmds@[i as int].wf());
            }
            match self.area.exec(&self.cmds[i], self.method) {
                Ok(_) => {},
                Err(err) => {
                    errors.push((i, err));
                },
            }
            i += 1;
        }
        assert(old(self).cmds@.take(i as int) =~= old(self).cmds@);
        errors
    }
}

/// `after` is the run `before` once its commands were run, and `errors`
/// are the commands that were refused.
pub open spec fn ran(before: Run, after: Run, errors: Seq<(usize, AError)>) -> bool {
    &&& after.wf()
    &&& after.method == before.method
    &&& after.cmds@ == before.cmds@
    &&& after.area@ == layout_after(before.area@, before.cmds@, before.method)
    &&& errors == errors_of(before.area@, before.cmds@, before.method)
}

/// One script under one or more strategies, each run on an address space
/// of its own.
pub struct Simulation(pub Vec<Run>);

/// `after` is the simulation `before` once each of its runs was run, and
/// `errors` holds, for each run in turn, the commands that were refused.
pub open spec fn ran_all(
    before: Simulation,
    after: Simulation,
    errors: Seq<Vec<(usize, AError)>>,
) -> bool {
    &&& after.wf()
    &&& after.0@.len() == before.0@.len()
    &&& errors.len() == before.0@.len()
    &&& forall|i: int|
        0 <= i < errors.len() ==> ran(before.0@[i], after.0@[i], (#[trigger] errors[i])@)
}

impl Simulation {
    /// Every run is well-formed.
    pub open spec fn wf(&self) -> bool {
        forall|i: int| 0 <= i < self.0@.len() ==> (#[trigger] self.0@[i]).wf()
    }

    /// `run` is a run of the script `file` under `method` that has not
    /// begun.
    pub open spec fn fresh_run(run: Run, file: Seq<char>, method: AllocationMethod) -> bool {
        &&& run.wf()
        &&& run.method == method
        &&& run.area@ == Layout::fresh(run.area.size)
        &&& script(file) == Ok::<(u64, Seq<Cmd>), ParseFault>((run.area.size, run.cmds@))
    }

    /// The runs of the script `file` that `ty` asks for: one for each
    /// strategy, in the order first-fit, best-fit, worst-fit, each on a
    /// fresh address space.
    pub fn new(file: &str, ty: RunOption) -> (r: Result<Self, ParseError>)
        ensures
            match r {
                Ok(sim) => {
                    &&& sim.wf()
                    &&& sim.0@.len() == ty.methods().len()
                    &&& forall|i: int|
                        0 <= i < sim.0@.len() ==> Self::fresh_run(
                            #[trigger] sim.0@[i],
                            file@,
                            ty.methods()[i],
                        )
                },
                Err(e) => script(file@) == Err::<(u64, Seq<Cmd>), ParseFault>(e@),
            },
    {
        let mut methods: Vec<AllocationMethod> = Vec::new();
        match ty {
            RunOption::All => {
                methods.push(AllocationMethod::FirstFit);
                methods.push(AllocationMethod::BestFit);
                methods.push(AllocationMethod::WorstFit);
            },
            RunOption::FirstFit => {
                methods.push(AllocationMethod::FirstFit);
            },
            RunOption::BestFit => {
                methods.push(AllocationMethod::BestFit);
            },
            RunOption::WorstFit => {
                methods.push(AllocationMethod::WorstFit);
            },
        }
        assert(methods@ =~= ty.methods());
        let mut runs: Vec<Run> = Vec::new();
        let mut i: usize = 0;
        while i < methods.len()
            invariant
                i <= methods.len(),
                methods@ == ty.methods(),
                runs@.len() == i,
                forall|k: int|
                    0 <= k < i ==> Self::fresh_run(#[trigger] runs@[k], file@, methods@[k]),
            decreases methods.len() - i,
        {
            match Run::new(file, methods[i]) {
                Ok(run) => {
                    runs.push(run);
                },
                Err(e) => {
                    return Err(e);
                },
            }
            i += 1;
        }
        Ok(Simulation(runs))
    }

    /// Runs every run, and hands back the refused commands of each.
    pub fn run(&mut self) -> (errors: Vec<Vec<(usize, AError)>>)
        requires
            old(self).wf(),
        ensures
            ran_all(*old(self), *final(self), errors@),
    {
        let mut errors: Vec<Vec<(usize, AError)>> = Vec::new();
        let mut i: usize = 0;
        while i < self.0.len()
            invariant
                i <= self.0.len(),
                self.0@.len() == old(self).0@.len(),
                errors@.len() == i,
                forall|k: int|
                    0 <= k < i ==> ran(old(self).0@[k], self.0@[k], (#[trigger] errors@[k])@),
                forall|k: int| i <= k < self.0@.len() ==> self.0@[k] == old(self).0@[k],
                forall|k: int| 0 <= k < self.0@.len() ==> (#[trigger] self.0@[k]).wf(),
            decreases self.0.len() - i,
        {
            let e = self.0[i].run();
            errors.push(e);
            i += 1;
        }
        errors
    }
}

/// Several scripts, each under the strategies of one option.
pub struct Simulator(pub Vec<Simulation>);

impl Simulator {
    /// Every simulation is well-formed.
    pub open spec fn wf(&self) -> bool {
        forall|i: int| 0 <= i < self.0@.len() ==> (#[trigger] self.0@[i]).wf()
    }

    /// One simulation for each script of `files`, in their order; or the
    /// error of the first script that cannot be read.
    pub fn new(files: Vec<&str>, run_option: RunOption) -> (r: Result<Self, ParseError>)
        ensures
            match r {
                Ok(sims) => {
                    &&& sims.wf()
                    &&& sims.0@.len() == files@.len()
                    &&& forall|i: int, j: int|
                        0 <= i < sims.0@.len() && 0 <= j < run_option.methods().len() ==> {
                            &&& (#[trigger] sims.0@[i]).0@.len() == run_option.methods().len()
                            &&& Simulation::fresh_run(
                                sims.0@[i].0@[j],
                                files@[i]@,
                                #[trigger] run_option.methods()[j],
                            )
                        }
                },
                Err(e) => exists|i: int|
                    0 <= i < files@.len() && script((#[trigger] files@[i])@) == Err::<
                        (u64, Seq<Cmd>),
                        ParseFault,
                    >(e@) && forall|k: int| 0 <= k < i ==> script((#[trigger] files@[k])@).is_ok(),
            },
    {
        let mut simulations: Vec<Simulation> = Vec::new();
        let mut i: usize = 0;
        while i < files.len()
            invariant
                i <= files.len(),
                simulations@.len() == i,
                forall|k: int| 0 <= k < i ==> (#[trigger] simulations@[k]).wf(),
                forall|k: int| 0 <= k < i ==> script((#[trigger] files@[k])@).is_ok(),
                forall|k: int, j: int|
                    0 <= k < i && 0 <= j < run_option.methods().len() ==> {
                        &&& (#[trigger] simulations@[k]).0@.len() == run_option.methods().len()
                        &&& Simulation::fresh_run(
                            simulations@[k].0@[j],
                            files@[k]@,
                            #[trigger] run_option.methods()[j],
                        )
                    },
            decreases files.len() - i,
        {
            match Simulation::new(files[i], run_option) {
                Ok(simulation) => {
                    assert(Simulation::fresh_run(
                        simulation.0@[0],
                        files@[i as int]@,
                        run_option.methods()[0],
                    ));
                    simulations.push(simulation);
                },
                Err(e) => {
                    return Err(e);
                },
            }
            i += 1;
        }
        Ok(Simulator(simulations))
    }

    /// Runs every simulation, and hands back the refused commands of each
    /// run of each.
    pub fn run(&mut self) -> (errors: Vec<Vec<Vec<(usize, AError)>>>)
        requires
            old(self).wf(),
        ensures
            final(self).wf(),
            final(self).0@.len() == old(self).0@.len(),
            errors@.len() == old(self).0@.len(),
            forall|i: int|
                0 <= i < errors@.len() ==> ran_all(
                    old(self).0@[i],
                    final(self).0@[i],
                    (#[trigger] errors@[i])@,
                ),
    {
        let mut errors: Vec<Vec<Vec<(usize, AError)>>> = Vec::new();
        let mut i: usize = 0;
        while i < self.0.len()
            invariant
                i <= self.0.len(),
                self.0@.len() == old(self).0@.len(),
                errors@.len() == i,
                forall|k: int|
                    0 <= k < i ==> ran_all(old(self).0@[k], self.0@[k], (#[trigger] errors@[k])@),
                forall|k: int| i <= k < self.0@.len() ==> self.0@[k] == old(self).0@[k],
                forall|k: int| 0 <= k < self.0@.len() ==> (#[trigger] self.0@[k]).wf(),
            decreases self.0.len() - i,
        {
            let e = self.0[i].run();
            errors.push(e);
            i += 1;
        }
        errors
    }
}

} // verus!
