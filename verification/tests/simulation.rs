use os_sim::algos::AllocationMethod;
use os_sim::area::{AError, Area};
use os_sim::block::{Block, BlockId, BlockVec};
use os_sim::cmd::{Cmd, CmdType, CmdVec, ParseError};
use os_sim::mem::{self, MError, Memory};
use os_sim::simulation::{Run, RunOption, Simulation, Simulator};

#[test]
fn test_from_str() {
    let input = r#"1000
A;0;100
A;1;100
A;2;500
D;1
A;3;200
D;2
        "#;

    let (area, cmds) = Run::from_str(input).unwrap();
    let run = Run { method: AllocationMethod::FirstFit, area, cmds };
    assert_eq!(run.area.size, 1000);
    assert_eq!(run.cmds.len(), 6);

    let cmd1 = &run.cmds[0];
    assert_eq!(cmd1.block_id, Some(0));
    assert_eq!(cmd1.size, Some(100));
    assert_eq!(cmd1.ty, CmdType::Alloc);

    let cmd2 = &run.cmds[1];
    assert_eq!(cmd2.block_id, Some(1));
    assert_eq!(cmd2.size, Some(100));
    assert_eq!(cmd2.ty, CmdType::Alloc);

    let cmd3 = &run.cmds[2];
    assert_eq!(cmd3.block_id, Some(2));
    assert_eq!(cmd3.size, Some(500));
    assert_eq!(cmd3.ty, CmdType::Alloc);

    let cmd4 = &run.cmds[3];
    assert_eq!(cmd4.block_id, Some(1));
    assert_eq!(cmd4.ty, CmdType::Dealloc);

    let cmd5 = &run.cmds[4];
    assert_eq!(cmd5.block_id, Some(3));
    assert_eq!(cmd5.size, Some(200));
    assert_eq!(cmd5.ty, CmdType::Alloc);

    let cmd6 = &run.cmds[5];
    assert_eq!(cmd6.block_id, Some(2));
    assert_eq!(cmd6.ty, CmdType::Dealloc);
}

#[test]
fn test_from_file() {
    // what the script file holds; to read it from the disk is the
    // program's part
    let file = "1000\nA;0;100\nA;1;100\nA;2;500\nD;1\nA;3;200\nD;2\n";
    let run = Run::new(file, AllocationMethod::FirstFit).unwrap();
    assert_eq!(run.area.size, 1000);
    assert_eq!(run.cmds.len(), 6);

    let cmd1 = &run.cmds[0];
    assert_eq!(cmd1.block_id, Some(0));
    assert_eq!(cmd1.size, Some(100));
    assert_eq!(cmd1.ty, CmdType::Alloc);

    let cmd2 = &run.cmds[1];
    assert_eq!(cmd2.block_id, Some(1));
    assert_eq!(cmd2.size, Some(100));
    assert_eq!(cmd2.ty, CmdType::Alloc);

    let cmd3 = &run.cmds[2];
    assert_eq!(cmd3.block_id, Some(2));
    assert_eq!(cmd3.size, Some(500));
    assert_eq!(cmd3.ty, CmdType::Alloc);

    let cmd4 = &run.cmds[3];
    assert_eq!(cmd4.block_id, Some(1));
    assert_eq!(cmd4.ty, CmdType::Dealloc);

    let cmd5 = &run.cmds[4];
    assert_eq!(cmd5.block_id, Some(3));
    assert_eq!(cmd5.size, Some(200));
    assert_eq!(cmd5.ty, CmdType::Alloc);

    let cmd6 = &run.cmds[5];
    assert_eq!(cmd6.block_id, Some(2));
    assert_eq!(cmd6.ty, CmdType::Dealloc);
}

#[test]
fn mem_test_alloc() {
    let mut mem = Memory::new(100);
    mem.allocate(1, 10).unwrap();
    mem.allocate(2, 80).unwrap();
    assert_eq!(mem.allocate(3, 20).is_err(), true);
}

#[test]
fn test_cmd_constructors() {
    assert_eq!(
        Cmd::new(CmdType::Alloc, Some(1), None),
        Cmd { ty: CmdType::Alloc, block_id: Some(1), size: None }
    );
    assert_eq!(Cmd::allocate(4, 9), Cmd { ty: CmdType::Alloc, block_id: Some(4), size: Some(9) });
    assert_eq!(Cmd::dealloc(4), Cmd { ty: CmdType::Dealloc, block_id: Some(4), size: None });
    assert_eq!(Cmd::compact(), Cmd { ty: CmdType::Compact, block_id: None, size: None });
}

#[test]
fn test_cmd_from_text() {
    assert_eq!(Cmd::try_from("A;7;20"), Ok(Cmd::allocate(7, 20)));
    assert_eq!(Cmd::try_from("A;+7;020;junk"), Ok(Cmd::allocate(7, 20)));
    assert_eq!(Cmd::try_from("D;3"), Ok(Cmd::dealloc(3)));
    assert_eq!(Cmd::try_from("D;3;x"), Ok(Cmd::dealloc(3)));
    assert_eq!(Cmd::try_from("C"), Ok(Cmd::compact()));
    assert_eq!(Cmd::try_from("C;1"), Ok(Cmd::compact()));
    assert_eq!(Cmd::try_from(String::from("A;18446744073709551615;1")), Ok(Cmd::allocate(u64::MAX, 1)));
}

#[test]
fn test_cmd_from_text_errors() {
    assert_eq!(Cmd::try_from("X;1"), Err(ParseError::InvalidCommand("X".to_owned())));
    assert_eq!(Cmd::try_from(""), Err(ParseError::InvalidCommand("".to_owned())));
    assert_eq!(Cmd::try_from("AA;1;2"), Err(ParseError::InvalidCommand("AA".to_owned())));
    assert_eq!(Cmd::try_from("a;1;2"), Err(ParseError::InvalidCommand("a".to_owned())));
    assert_eq!(Cmd::try_from("A;x;2"), Err(ParseError::InvalidBlockId("x".to_owned())));
    assert_eq!(Cmd::try_from("A;;2"), Err(ParseError::InvalidBlockId("".to_owned())));
    assert_eq!(Cmd::try_from("A;-1;2"), Err(ParseError::InvalidBlockId("-1".to_owned())));
    assert_eq!(Cmd::try_from("A;1;2 "), Err(ParseError::InvalidBlockSize("2 ".to_owned())));
    assert_eq!(
        Cmd::try_from("A;1;18446744073709551616"),
        Err(ParseError::InvalidBlockSize("18446744073709551616".to_owned()))
    );
    assert_eq!(Cmd::try_from("A;1;+"), Err(ParseError::InvalidBlockSize("+".to_owned())));
    assert_eq!(Cmd::try_from("A;1"), Err(ParseError::MissingParameters("A".to_owned())));
    assert_eq!(Cmd::try_from("A;x"), Err(ParseError::MissingParameters("A".to_owned())));
    assert_eq!(Cmd::try_from("A"), Err(ParseError::MissingParameters("A".to_owned())));
    assert_eq!(Cmd::try_from("D"), Err(ParseError::MissingParameters("D".to_owned())));
    assert_eq!(Cmd::try_from("D;é"), Err(ParseError::InvalidBlockId("é".to_owned())));
}

#[test]
fn test_script_from_text() {
    let script = CmdVec::from_str(" 50\tA;1;5\u{2003}C\r\nD;1 ").unwrap();
    assert_eq!(script.size, 50);
    assert_eq!(script.cmds, vec![Cmd::allocate(1, 5), Cmd::compact(), Cmd::dealloc(1)]);
    let only_size = CmdVec::from_str("7").unwrap();
    assert_eq!(only_size.size, 7);
    assert!(only_size.cmds.is_empty());
}

#[test]
fn test_script_from_text_errors() {
    assert_eq!(CmdVec::from_str(""), Err(ParseError::MissingParameters("size".to_owned())));
    assert_eq!(CmdVec::from_str(" \n\t "), Err(ParseError::MissingParameters("size".to_owned())));
    assert_eq!(CmdVec::from_str("x A;1;1"), Err(ParseError::ParseIntError("x".to_owned())));
    assert_eq!(CmdVec::from_str("A;1;1"), Err(ParseError::ParseIntError("A;1;1".to_owned())));
    assert_eq!(
        CmdVec::from_str("10 A;1;1 B D;x"),
        Err(ParseError::InvalidCommand("B".to_owned()))
    );
    assert_eq!(
        CmdVec::from_str("10 A;1;1 D;x B"),
        Err(ParseError::InvalidBlockId("x".to_owned()))
    );
    assert!(Run::from_str("10 A;1").is_err());
    assert!(Run::new("ten", AllocationMethod::BestFit).is_err());
}

#[test]
fn test_cmd_vec() {
    let mut script = CmdVec::new(12);
    assert_eq!(script.size, 12);
    script.add(Cmd::compact());
    script.add(Cmd::dealloc(2));
    let seen: Vec<Cmd> = script.iter().cloned().collect();
    assert_eq!(seen, vec![Cmd::compact(), Cmd::dealloc(2)]);
}

#[test]
fn test_block_vec() {
    let mut v = BlockVec::new();
    assert_eq!(v.len(), 0);
    v.add(Block::new_free(0, 5));
    v.add(Block::new_used(1, 5, 5));
    v.add(Block::new_free(10, 5));
    assert_eq!(v.len(), 3);
    assert_eq!(v.get(1).id, BlockId::Used(1));
    assert_eq!(v.pop(0), Block::new_free(0, 5));
    assert_eq!(v.as_vec(), &vec![Block::new_used(1, 5, 5), Block::new_free(10, 5)]);
    let starts: Vec<u64> = v.iter().map(|b| b.start_addr).collect();
    assert_eq!(starts, vec![5, 10]);
    v.clear();
    assert_eq!(v.len(), 0);
}

#[test]
fn test_exec_runs_one_command() {
    let mut area = Area::new(10);
    assert_eq!(area.exec(&Cmd::allocate(1, 4), AllocationMethod::BestFit), Ok(()));
    assert_eq!(area.exec(&Cmd::dealloc(2), AllocationMethod::BestFit), Err(AError::Dealloc(BlockId::Used(2))));
    assert_eq!(area.exec(&Cmd::compact(), AllocationMethod::BestFit), Ok(()));
    assert_eq!(area.exec(&Cmd::dealloc(1), AllocationMethod::BestFit), Ok(()));
    assert_eq!(area.free_blocks, vec![Block::new_free(0, 10)]);
}

#[test]
fn test_run_records_the_refused_commands() {
    let mut run = Run::new("100 A;1;10 A;2;80 A;3;20 D;9 A;1;5 C D;1 D;2 C A;4;0", AllocationMethod::FirstFit)
        .unwrap();
    assert_eq!(run.area.size, 100);
    let errors = run.run();
    assert_eq!(
        errors,
        vec![
            (2, AError::Alloc(20, 3, 10)),
            (3, AError::Dealloc(BlockId::Used(9))),
            (4, AError::InUse(1)),
            (9, AError::ZeroSize(4)),
        ]
    );
    assert!(run.area.used_blocks.is_empty());
    assert_eq!(run.area.free_blocks, vec![Block::new_free(0, 100)]);
    assert_eq!(run.cmds.len(), 10);
}

#[test]
fn test_run_reports_compaction_without_free_space() {
    let mut run = Run::new("10 A;1;10 C", AllocationMethod::WorstFit).unwrap();
    assert_eq!(run.run(), vec![(1, AError::Compact)]);
}

#[test]
fn test_run_option_from_switches() {
    assert_eq!(RunOption::from((true, true, true, true)), RunOption::All);
    assert_eq!(RunOption::from((false, true, true, true)), RunOption::FirstFit);
    assert_eq!(RunOption::from((false, false, true, true)), RunOption::BestFit);
    assert_eq!(RunOption::from((false, false, false, true)), RunOption::WorstFit);
    assert_eq!(RunOption::from((false, false, false, false)), RunOption::FirstFit);
}

const TRACE: &str = "100 A;1;20 A;2;20 A;3;15 A;4;35 D;1 D;3 A;5;12";

#[test]
fn test_simulation_runs_each_strategy_on_its_own_space() {
    let mut sim = Simulation::new(TRACE, RunOption::All).unwrap();
    assert_eq!(sim.0.len(), 3);
    assert_eq!(sim.0[0].method, AllocationMethod::FirstFit);
    assert_eq!(sim.0[1].method, AllocationMethod::BestFit);
    assert_eq!(sim.0[2].method, AllocationMethod::WorstFit);
    for run in sim.0.iter() {
        assert_eq!(run.area.free_blocks, vec![Block::new_free(0, 100)]);
        assert_eq!(run.cmds.len(), 7);
    }
    let errors = sim.run();
    assert_eq!(errors, vec![vec![], vec![], vec![]]);
    assert_eq!(sim.0[0].area.used_blocks.last(), Some(&Block::new_used(5, 0, 12)));
    assert_eq!(sim.0[1].area.used_blocks.last(), Some(&Block::new_used(5, 40, 12)));
    assert_eq!(sim.0[2].area.used_blocks.last(), Some(&Block::new_used(5, 0, 12)));
}

#[test]
fn test_simulation_of_one_strategy() {
    let mut sim = Simulation::new("10 A;1;4 A;2;7", RunOption::BestFit).unwrap();
    assert_eq!(sim.0.len(), 1);
    assert_eq!(sim.0[0].method, AllocationMethod::BestFit);
    assert_eq!(sim.run(), vec![vec![(1, AError::Alloc(7, 2, 6))]]);
    assert_eq!(
        Simulation::new("10 A;1", RunOption::All).err(),
        Some(ParseError::MissingParameters("A".to_owned()))
    );
}

#[test]
fn test_simulator_runs_every_script() {
    let mut simulator = Simulator::new(vec!["10 A;1;4 D;2", "5 C A;1;6"], RunOption::All).unwrap();
    assert_eq!(simulator.0.len(), 2);
    let errors = simulator.run();
    let first = vec![(1, AError::Dealloc(BlockId::Used(2)))];
    let second = vec![(1, AError::Alloc(6, 1, 5))];
    assert_eq!(
        errors,
        vec![
            vec![first.clone(), first.clone(), first],
            vec![second.clone(), second.clone(), second],
        ]
    );
    assert_eq!(
        Simulator::new(vec!["10", "x", "D"], RunOption::FirstFit).err(),
        Some(ParseError::ParseIntError("x".to_owned()))
    );
    assert_eq!(Simulator::new(vec![], RunOption::All).unwrap().0.len(), 0);
}

#[test]
fn test_memory_counts_and_records() {
    let mut mem = Memory::new(100);
    assert_eq!(mem.free_memory(), 100);
    let first = AllocationMethod::FirstFit;
    assert_eq!(mem.exec(&Cmd::allocate(1, 60), first), mem::Result::Done);
    assert_eq!(mem.exec(&Cmd::allocate(2, 50), first), mem::Result::AllocErr(2, 2, 40));
    assert_eq!(mem.exec(&Cmd::dealloc(2), first), mem::Result::DeallocErr(2, 3, 1));
    assert_eq!(mem.exec(&Cmd::dealloc(3), first), mem::Result::DeallocErr(3, 4, 0));
    assert_eq!(mem.exec(&Cmd::allocate(3, 40), first), mem::Result::Done);
    assert_eq!(mem.exec(&Cmd::compact(), first), mem::Result::CompactErr(6));
    assert_eq!(mem.instr_cnt, 6);
    assert_eq!(
        mem.errors,
        vec![
            mem::Result::AllocErr(2, 2, 40),
            mem::Result::DeallocErr(2, 3, 1),
            mem::Result::DeallocErr(3, 4, 0),
            mem::Result::CompactErr(6),
        ]
    );
    assert_eq!(mem.did_try_allocating(2), 1);
    assert_eq!(mem.did_try_allocating(1), 0);
    assert_eq!(mem.free_memory(), 0);
    mem.incr();
    assert_eq!(mem.instr_cnt, 7);
}

#[test]
fn test_memory_operations_leave_the_record_alone() {
    let mut mem = Memory::new(10);
    assert_eq!(mem.allocate(1, 11), Err(MError::Alloc(11, 1, 10)));
    assert_eq!(mem.allocate(1, 0), Err(MError::ZeroSize(1)));
    assert_eq!(mem.dealloc(1), Err(MError::Dealloc(1)));
    assert_eq!(mem.allocate(1, 10), Ok(()));
    assert_eq!(mem.allocate(1, 10), Err(MError::InUse(1)));
    assert_eq!(mem.compact(), Err(MError::Compact));
    assert_eq!(mem.dealloc(1), Ok(()));
    assert_eq!(mem.compact(), Ok(()));
    assert!(mem.errors.is_empty());
    assert_eq!(mem.instr_cnt, 0);
}
