//! Blocks of the user interface: one command execution and its output each.

use crate::ids;
use uuid::Uuid;
use vstd::prelude::*;

verus! {

/// A single block: represents one command execution and its output.
#[derive(Debug)]
pub struct Block {
    pub id: Uuid,
    /// The command string entered by the user.
    pub command: String,
    /// The captured output text.
    pub output: String,
    /// Exit code of the command (if known).
    pub exit_code: Option<i32>,
    /// Timestamp of execution.
    pub timestamp: u64,
    /// Whether the block is collapsed in the UI.
    pub collapsed: bool,
}

impl Clone for Block {
    fn clone(&self) -> (r: Block)
        ensures
            r == *self,
    {
        Block {
            id: self.id,
            command: self.command.clone(),
            output: self.output.clone(),
            exit_code: self.exit_code,
            timestamp: self.timestamp,
            collapsed: self.collapsed,
        }
    }
}

impl Block {
    /// A block whose command has produced nothing yet.
    pub open spec fn is_fresh(self, command: Seq<char>) -> bool {
        &&& self.command@ == command
        &&& self.output@ == Seq::<char>::empty()
        &&& self.exit_code is None
        &&& self.timestamp == 0
        &&& !self.collapsed
    }

    pub fn new(command: String) -> (r: Block)
        ensures
            r.is_fresh(command@),
    {
        Block::with_id(ids::fresh_id(), command)
    }

    /// A block with the given ID.
    pub fn with_id(id: Uuid, command: String) -> (r: Block)
        ensures
            r.is_fresh(command@),
            r.id == id,
    {
        let b = Block {
            id,
            command,
            output: String::new(),
            exit_code: None,
            timestamp: 0,
            collapsed: false,
        };
        assert(b.output@ =~= Seq::empty());
        b
    }

    /// Append output data to this block.
    pub fn append_output(&mut self, data: &str)
        ensures
            final(self).output@ == old(self).output@ + data@,
            *final(self) == (Block { output: final(self).output, ..*old(self) }),
    {
        self.output.append(data);
    }

    /// Finalize the block with an exit code.
    pub fn finalize(&mut self, exit_code: i32)
        ensures
            *final(self) == (Block { exit_code: Some(exit_code), ..*old(self) }),
    {
        self.exit_code = Some(exit_code);
    }
}

/// Manages the list of blocks for a pane.
#[derive(Debug)]
pub struct BlockManager {
    pub blocks: Vec<Block>,
    /// The currently active (in-progress) block, if any.
    pub active: Option<Block>,
}

impl Default for BlockManager {
    fn default() -> (r: BlockManager)
        ensures
            r.blocks@ == Seq::<Block>::empty(),
            r.active is None,
    {
        BlockManager { blocks: Vec::new(), active: None }
    }
}

/// The blocks with the active one put behind them, where there is one.
pub open spec fn retired(blocks: Seq<Block>, active: Option<Block>) -> Seq<Block> {
    match active {
        Some(b) => blocks.push(b),
        None => blocks,
    }
}

impl BlockManager {
    /// Starts a block; the active one goes to the list.
    pub fn start_block(&mut self, command: String)
        ensures
            final(self).blocks@ == retired(old(self).blocks@, old(self).active),
            final(self).active matches Some(b) && b.is_fresh(command@),
    {
        if let Some(prev) = self.active.take() {
            self.blocks.push(prev);
        }
        self.active = Some(Block::new(command));
    }

    /// Appends output to the active block.
    pub fn append_output(&mut self, data: &str)
        ensures
            final(self).blocks@ == old(self).blocks@,
            final(self).active.is_some() == old(self).active.is_some(),
            final(self).active matches Some(b) ==> {
                &&& b.output@ == old(self).active.unwrap().output@ + data@
                &&& b == (Block { output: b.output, ..old(self).active.unwrap() })
            },
    {
        if let Some(block) = self.active.take() {
            let mut block: Block = block;
            block.append_output(data);
            self.active = Some(block);
        }
    }

    /// Finishes the active block, which goes to the list.
    pub fn finish_block(&mut self, exit_code: i32)
        ensures
            final(self).active is None,
            final(self).blocks@ == match old(self).active {
                Some(b) => old(self).blocks@.push(Block { exit_code: Some(exit_code), ..b }),
                None => old(self).blocks@,
            },
    {
        if let Some(block) = self.active.take() {
            let mut block: Block = block;
            block.finalize(exit_code);
            self.blocks.push(block);
        }
    }
}

} // verus!
