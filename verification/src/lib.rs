//! Scaffolds a project directory from a small declarative template: the
//! template is tokenized and interpreted into a flat, ordered list of
//! executable actions, and a two-phase scheduling engine then partitions
//! the actions into immediate and deferred work, slices each phase into
//! fixed-size batches, and aggregates per-task failures without aborting
//! sibling batches.

pub mod arg_parser;
pub mod executor;

pub mod interpreter;
pub mod logger;
pub mod orchestrator;
pub mod parser;
pub mod runner;
pub mod schedular;
pub mod seq_facts;
pub mod strings;
pub mod token;
pub mod syntax_tree;
pub mod task;

use crate::interpreter::Interpreter;
use crate::syntax_tree::{branches_from, BranchView, Tree};
use crate::token::UnknownSectionError;
use vstd::prelude::*;

verus! {

/// Builds the syntax tree of the already line-split template data: one
/// branch per section, in file order — or the name of the first header that
/// opens no known section.
pub fn construct_tree(file_data: Vec<String>) -> (r: Result<Tree, UnknownSectionError>)
    ensures
        match r {
            Ok(t) => branches_from(file_data.deep_view(), 0) == Ok::<_, Seq<char>>(t@.branches),
            Err(e) => branches_from(file_data.deep_view(), 0) == Err::<Seq<BranchView>, _>(e@),
        },
{
    Tree::construct(file_data)
}

/// A fresh interpreter over `tree`, with empty buffers.
pub fn construct_interpreter(tree: Tree) -> (it: Interpreter)
    ensures
        it@.variables.len() == 0,
        it@.commands.len() == 0,
        it@.fs_actions.len() == 0,
        it@.tree == tree@,
{
    Interpreter::construct(tree)
}

} // verus!
