//! Commands for an address space, and the text that writes them:
//! `A;<id>;<size>` allocates, `D;<id>` gives back, `C` compacts.

use crate::text::{
    chars_of, copy_of, cut_at, fields, number, parse_number, split_fields, split_words, words,
};
use vstd::prelude::*;
use vstd::string::StrSliceExecFns;

verus! {

/// Why a text is no command, with the part of the text that is at fault.
#[derive(Debug, Clone, PartialEq, Eq)]
pub enum ParseError {
    /// The first field names no command.
    InvalidCommand(String),
    /// The field for the block id is no number.
    InvalidBlockId(String),
    /// The field for the size is no number.
    InvalidBlockSize(String),
    /// The command, or the script, lacks a field it needs.
    MissingParameters(String),
    /// The text as a whole has the wrong form.
    Format(String),
    /// The size of the address space is no number.
    ParseIntError(String),
}

/// What reading a text hands back.
pub type ParseResult<T> = Result<T, ParseError>;

/// A `ParseError` with its texts as sequences of characters.
pub enum ParseFault {
    InvalidCommand(Seq<char>),
    InvalidBlockId(Seq<char>),
    InvalidBlockSize(Seq<char>),
    MissingParameters(Seq<char>),
    Format(Seq<char>),
    ParseIntError(Seq<char>),
}

impl View for ParseError {
    type V = ParseFault;

    open spec fn view(&self) -> ParseFault {
        match self {
            ParseError::InvalidCommand(s) => ParseFault::InvalidCommand(s@),
            ParseError::InvalidBlockId(s) => ParseFault::InvalidBlockId(s@),
            ParseError::InvalidBlockSize(s) => ParseFault::InvalidBlockSize(s@),
            ParseError::MissingParameters(s) => ParseFault::MissingParameters(s@),
            ParseError::Format(s) => ParseFault::Format(s@),
            ParseError::ParseIntError(s) => ParseFault::ParseIntError(s@),
        }
    }
}

/// `r` is the outcome `m`: the same value, or an error with the same text.
pub open spec fn same_outcome<T>(r: ParseResult<T>, m: Result<T, ParseFault>) -> bool {
    match (r, m) {
        (Ok(a), Ok(b)) => a == b,
        (Err(e), Err(f)) => e@ == f,
        _ => false,
    }
}

/// The kinds of command.
#[derive(Debug, Clone, Copy, PartialEq, Eq, Hash, Structural)]
pub enum CmdType {
    Alloc,
    Dealloc,
    Compact,
}

/// One command: what to do, and the block id and the size where the
/// command has them.
#[derive(Debug, Clone, Copy, PartialEq, Eq)]
pub struct Cmd {
    pub ty: CmdType,
    pub block_id: Option<u64>,
    pub size: Option<u64>,
}

/// The command that `s` writes, or why it writes none. Fields beyond those
/// that the command needs are not looked at.
pub open spec fn command(s: Seq<char>) -> Result<Cmd, ParseFault> {
    let f = fields(s);
    let name = f[0];
    if name == seq!['A'] {
        if f.len() < 3 {
            Err(ParseFault::MissingParameters(name))
        } else {
            match (number(f[1]), number(f[2])) {
                (None, _) => Err(ParseFault::InvalidBlockId(f[1])),
                (Some(_), None) => Err(ParseFault::InvalidBlockSize(f[2])),
                (Some(id), Some(size)) => Ok(
                    Cmd { ty: CmdType::Alloc, block_id: Some(id), size: Some(size) },
                ),
            }
        }
    } else if name == seq!['D'] {
        if f.len() < 2 {
            Err(ParseFault::MissingParameters(name))
        } else {
            match number(f[1]) {
                None => Err(ParseFault::InvalidBlockId(f[1])),
                Some(id) => Ok(Cmd { ty: CmdType::Dealloc, block_id: Some(id), size: None }),
            }
        }
    } else if name == seq!['C'] {
        Ok(Cmd { ty: CmdType::Compact, block_id: None, size: None })
    } else {
        Err(ParseFault::InvalidCommand(name))
    }
}

impl Cmd {
    /// The command holds what its kind needs: an id and a size to allocate,
    /// an id to give back.
    pub open spec fn wf(&self) -> bool {
        match self.ty {
            CmdType::Alloc => self.block_id.is_some() && self.size.is_some(),
            CmdType::Dealloc => self.block_id.is_some(),
            CmdType::Compact => true,
        }
    }

    /// The command of kind `ty` with the id and size given.
    pub fn new(ty: CmdType, block_id: Option<u64>, size: Option<u64>) -> (c: Self)
        ensures
            c == (Cmd { ty, block_id, size }),
    {
        Self { ty, block_id, size }
    }

    /// The command to allocate `size` addresses under `block_id`.
    pub fn allocate(block_id: u64, size: u64) -> (c: Self)
        ensures
            c == (Cmd { ty: CmdType::Alloc, block_id: Some(block_id), size: Some(size) }),
            c.wf(),
    {
        Self::new(CmdType::Alloc, Some(block_id), Some(size))
    }

    /// The command to give back the block used under `block_id`.
    pub fn dealloc(block_id: u64) -> (c: Self)
        ensures
            c == (Cmd { ty: CmdType::Dealloc, block_id: Some(block_id), size: None }),
            c.wf(),
    {
        Self::new(CmdType::Dealloc, Some(block_id), None)
    }

    /// The command to compact.
    pub fn compact() -> (c: Self)
        ensures
            c == (Cmd { ty: CmdType::Compact, block_id: None, size: None }),
            c.wf(),
    {
        Self::new(CmdType::Compact, None, None)
    }
}

/// What is wrong with a text that writes no command.
enum Flaw {
    InvalidCommand,
    InvalidBlockId,
    InvalidBlockSize,
    MissingParameters,
}

impl Flaw {
    /// The error for this flaw in the part `text` of a command.
    spec fn of(self, text: Seq<char>) -> ParseFault {
        match self {
            Flaw::InvalidCommand => ParseFault::InvalidCommand(text),
            Flaw::InvalidBlockId => ParseFault::InvalidBlockId(text),
            Flaw::InvalidBlockSize => ParseFault::InvalidBlockSize(text),
            Flaw::MissingParameters => ParseFault::MissingParameters(text),
        }
    }

    fn error(self, text: String) -> (e: ParseError)
        ensures
            e@ == self.of(text@),
    {
        match self {
            Flaw::InvalidCommand => ParseError::InvalidCommand(text),
            Flaw::InvalidBlockId => ParseError::InvalidBlockId(text),
            Flaw::InvalidBlockSize => ParseError::InvalidBlockSize(text),
            Flaw::MissingParameters => ParseError::MissingParameters(text),
        }
    }
}

/// Reads one command from its characters. Where they write none, hands
/// back what is wrong, and where the part at fault begins and ends.
fn read_command(v: &Vec<char>) -> (r: Result<Cmd, (Flaw, usize, usize)>)
    ensures
        match r {
            Ok(cmd) => cmd.wf() && command(v@) == Ok::<Cmd, ParseFault>(cmd),
            Err((flaw, from, to)) => from <= to <= v.len() && command(v@) == Err::<
                Cmd,
                ParseFault,
            >(flaw.of(v@.subrange(from as int, to as int))),
        },
{
    let f = split_fields(v);
    let (from, to) = f[0];
    assert(f@[0].0 <= f@[0].1 <= v.len());
    let ghost name = fields(v@)[0];
    assert(name == v@.subrange(from as int, to as int));
    let one = to - from == 1;
    if one && v[from] == 'A' {
        assert(name =~= seq!['A']);
        if f.len() < 3 {
            return Err((Flaw::MissingParameters, from, to));
        }
        let (id_from, id_to) = f[1];
        let (size_from, size_to) = f[2];
        assert(f@[1].0 <= f@[1].1 <= v.len());
        assert(f@[2].0 <= f@[2].1 <= v.len());
        match parse_number(v, id_from, id_to) {
            None => Err((Flaw::InvalidBlockId, id_from, id_to)),
            Some(id) => match parse_number(v, size_from, size_to) {
                None => Err((Flaw::InvalidBlockSize, size_from, size_to)),
                Some(size) => Ok(Cmd::allocate(id, size)),
            },
        }
    } else if one && v[from] == 'D' {
        assert(name =~= seq!['D']);
        assert(name != seq!['A']) by {
            assert(name[0] != seq!['A'][0]);
        }
        if f.len() < 2 {
            return Err((Flaw::MissingParameters, from, to));
        }
        let (id_from, id_to) = f[1];
        assert(f@[1].0 <= f@[1].1 <= v.len());
        match parse_number(v, id_from, id_to) {
            None => Err((Flaw::InvalidBlockId, id_from, id_to)),
            Some(id) => Ok(Cmd::dealloc(id)),
        }
    } else if one && v[from] == 'C' {
        assert(name =~= seq!['C']);
        assert(name != seq!['A'] && name != seq!['D']) by {
            assert(name[0] != seq!['A'][0]);
            assert(name[0] != seq!['D'][0]);
        }
        Ok(Cmd::compact())
    } else {
        assert(name != seq!['A'] && name != seq!['D'] && name != seq!['C']) by {
            if name.len() == 1 {
                assert(name[0] != seq!['A'][0]);
                assert(name[0] != seq!['D'][0]);
                assert(name[0] != seq!['C'][0]);
            } else {
                assert(seq!['A'].len() == 1);
                assert(seq!['D'].len() == 1);
                assert(seq!['C'].len() == 1);
            }
        }
        Err((Flaw::InvalidCommand, from, to))
    }
}

impl<'a> TryFrom<&'a str> for Cmd {
    type Error = ParseError;

    /// Reads one command from its text.
    fn try_from(s: &'a str) -> (r: ParseResult<Cmd>)
        ensures
            same_outcome(r, command(s@)),
            r.is_ok() ==> r.unwrap().wf(),
    {
        let v = chars_of(s);
        match read_command(&v) {
            Ok(cmd) => Ok(cmd),
            Err((flaw, from, to)) => Err(flaw.error(s.substring_char(from, to).to_owned())),
        }
    }
}

impl<'a> vstd::std_specs::convert::TryFromSpecImpl<&'a str> for Cmd {
    open spec fn obeys_try_from_spec() -> bool {
        false
    }

    open spec fn try_from_spec(v: &'a str) -> Result<Self, ParseError> {
        arbitrary()
    }
}

impl TryFrom<String> for Cmd {
    type Error = ParseError;

    /// Reads one command from its text.
    fn try_from(s: String) -> (r: ParseResult<Cmd>)
        ensures
            same_outcome(r, command(s@)),
            r.is_ok() ==> r.unwrap().wf(),
    {
        Cmd::try_from(s.as_str())
    }
}

impl vstd::std_specs::convert::TryFromSpecImpl<String> for Cmd {
    open spec fn obeys_try_from_spec() -> bool {
        false
    }

    open spec fn try_from_spec(v: String) -> Result<Self, ParseError> {
        arbitrary()
    }
}

/// The commands that the words `w` write, or the error of the first word
/// that writes none.
pub open spec fn commands(w: Seq<Seq<char>>) -> Result<Seq<Cmd>, ParseFault>
    decreases w.len(),
{
    if w.len() == 0 {
        Ok(Seq::empty())
    } else {
        match commands(w.drop_last()) {
            Err(e) => Err(e),
            Ok(cmds) => match command(w.last()) {
                Err(e) => Err(e),
                Ok(c) => Ok(cmds.push(c)),
            },
        }
    }
}

/// What the script `s` writes: its first word is the size of the address
/// space, each further word is a command.
pub open spec fn script(s: Seq<char>) -> Result<(u64, Seq<Cmd>), ParseFault> {
    let w = words(s);
    if w.len() == 0 {
        Err(ParseFault::MissingParameters("size"@))
    } else {
        match number(w[0]) {
            None => Err(ParseFault::ParseIntError(w[0])),
            Some(size) => match commands(w.skip(1)) {
                Err(e) => Err(e),
                Ok(cmds) => Ok((size, cmds)),
            },
        }
    }
}

/// A script: the size of an address space, and the commands to run on it.
#[derive(Debug, Clone, PartialEq, Eq)]
pub struct CmdVec {
    pub size: u64,
    pub cmds: Vec<Cmd>,
}

impl CmdVec {
    /// Every command holds what its kind needs.
    pub open spec fn wf(&self) -> bool {
        forall|i: int| 0 <= i < self.cmds@.len() ==> (#[trigger] self.cmds@[i]).wf()
    }

    /// The script for a space of `size` addresses, with no command yet.
    pub fn new(size: u64) -> (script: CmdVec)
        ensures
            script.size == size,
            script.cmds@ == Seq::<Cmd>::empty(),
    {
        CmdVec { size, cmds: Vec::new() }
    }

    /// Puts `cmd` at the end of the script.
    pub fn add(&mut self, cmd: Cmd)
        ensures
            final(self).size == old(self).size,
            final(self).cmds@ == old(self).cmds@.push(cmd),
    {
        self.cmds.push(cmd);
    }

    /// The commands, in their order.
    pub fn iter(&self) -> (it: std::slice::Iter<'_, Cmd>)
        ensures
            vstd::std_specs::slice::into_iter_elts(it) == self.cmds@,
    {
        self.cmds.iter()
    }

    /// Reads a script: its first word is the size of the address space,
    /// each further word is a command; whitespace separates the words.
    pub fn from_str(inp: &str) -> (r: ParseResult<CmdVec>)
        ensures
            match r {
                Ok(cv) => cv.wf() && script(inp@) == Ok::<(u64, Seq<Cmd>), ParseFault>(
                    (cv.size, cv.cmds@),
                ),
                Err(e) => script(inp@) == Err::<(u64, Seq<Cmd>), ParseFault>(e@),
            },
    {
        let v = chars_of(inp);
        let w = split_words(&v);
        if w.len() == 0 {
            return Err(ParseError::MissingParameters("size".to_owned()));
        }
        let (from, to) = w[0];
        assert(w@[0].0 <= w@[0].1 <= v.len());
        let size = match parse_number(&v, from, to) {
            Some(size) => size,
            None => {
                return Err(ParseError::ParseIntError(inp.substring_char(from, to).to_owned()));
            },
        };
        let mut cmds = CmdVec::new(size);
        let ghost rest = words(inp@).skip(1);
        let mut i: usize = 1;
        while i < w.len()
            invariant
                1 <= i <= w.len(),
                v@ == inp@,
                cut_at(v@, w@, words(inp@)),
                rest == words(inp@).skip(1),
                cmds.size == size,
                number(words(inp@)[0]) == Some(size),
                commands(rest.take(i - 1)) == Ok::<Seq<Cmd>, ParseFault>(cmds.cmds@),
                cmds.wf(),
            decreases w.len() - i,
        {
            let (from, to) = w[i];
            assert(w@[i as int].0 <= w@[i as int].1 <= v.len());
            let word = copy_of(&v, from, to);
            proof {
                assert(rest.take(i as int).drop_last() =~= rest.take(i - 1));
                assert(rest.take(i as int).last() == word@);
            }
            match read_command(&word) {
                Ok(cmd) => {
                    cmds.add(cmd);
                },
                Err((flaw, a, b)) => {
                    proof {
                        assert(commands(rest.take(i as int)).is_err());
                        lemma_commands_fail(rest, i as int);
                        assert(word@.subrange(a as int, b as int) =~= inp@.subrange(
                            from + a,
                            from + b,
                        ));
                    }
                    return Err(flaw.error(inp.substring_char(from + a, from + b).to_owned()));
                },
            }
            i += 1;
        }
        assert(rest.take(i - 1) =~= rest);
        Ok(cmds)
    }
}

/// Where the words up to place `k` write no commands, neither do all.
pub proof fn lemma_commands_fail(w: Seq<Seq<char>>, k: int)
    requires
        0 <= k <= w.len(),
        commands(w.take(k)).is_err(),
    ensures
        commands(w) == commands(w.take(k)),
    decreases w.len(),
{
    if k == w.len() {
        assert(w.take(k) =~= w);
    } else {
        assert(w.drop_last().take(k) =~= w.take(k));
        lemma_commands_fail(w.drop_last(), k);
    }
}

} // verus!
