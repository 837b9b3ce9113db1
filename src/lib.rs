//! Finds the shared libraries that the dynamic loader would load for an ELF
//! binary: the loader named by the binary, the paths that the loader lists
//! for it, and the files that those paths lead to through symbolic links.

pub mod interp;
pub mod output;
pub mod walk;

pub use interp::{elf_loader, ld_so, ld_so_patterns, loader_choice, ElfClass, Loader, ET_DYN};
pub use output::parse_interp;
pub use walk::{link_destination, Walk};

use interp::utf8_text;
use output::listed_paths;
use vstd::utf8::{decode_utf8, valid_utf8};

use vstd::prelude::*;

verus! {

/// What can go wrong in finding a binary's libraries.
#[derive(Clone, Copy, Debug, PartialEq, Eq, Structural)]
pub enum Error {
    /// The binary is not an ELF image that can be read, or its `.interp`
    /// section is not text.
    MalformedElf,
    /// The binary's section table names a `.interp` section whose bytes are
    /// not in the file.
    InconsistentElf,
    /// The loader exited with a failure status.
    LoaderFailed,
    /// The loader's listing is not text.
    MalformedLoaderOutput,
}

/// Starts resolving the libraries of a binary whose loader is `loader`, from
/// the loader's listing run on it: whether it exited with success, and what
/// it printed. The walk visits the loader first, then the paths of the
/// listing from last to first (the order changes nothing that is found).
pub fn list(loader: String, exit_ok: bool, output: &[u8]) -> (r: Result<Walk, Error>)
    ensures
        match r {
            Ok(w) => exit_ok && valid_utf8(output@) && w.wf() && w@ == walk::walk_start(
                listed_paths(decode_utf8(output@)).push(loader@),
            ),
            Err(e) => if !exit_ok {
                e == Error::LoaderFailed
            } else {
                !valid_utf8(output@) && e == Error::MalformedLoaderOutput
            },
        },
{
    if !exit_ok {
        return Err(Error::LoaderFailed);
    }
    let text = match utf8_text(output) {
        None => {
            return Err(Error::MalformedLoaderOutput);
        },
        Some(t) => t,
    };
    let mut deps = parse_interp(text);
    let ghost listed = deps@;
    let ghost l = loader@;
    deps.push(loader);
    assert(walk::texts(deps@) =~= walk::texts(listed).push(l));
    Ok(Walk::new(deps))
}

/// The argument list of a command run as `command args..`: the command
/// itself, then its arguments.
pub fn command_line(command: &str, args: &Vec<String>) -> (r: Vec<String>)
    ensures
        walk::texts(r@) == seq![command@] + walk::texts(args@),
{
    let mut all: Vec<String> = Vec::new();
    all.push(command.to_owned());
    let mut i: usize = 0;
    while i < args.len()
        invariant
            i <= args@.len(),
            walk::texts(all@) == seq![command@] + walk::texts(args@.subrange(0, i as int)),
        decreases args.len() - i,
    {
        let ghost before = all@;
        all.push(args[i].clone());
        assert(args@.subrange(0, i + 1) =~= args@.subrange(0, i as int).push(args@[i as int]));
        assert(walk::texts(all@) =~= walk::texts(before).push(args@[i as int]@));
        assert(walk::texts(args@.subrange(0, i + 1)) =~= walk::texts(args@.subrange(0, i as int)).push(args@[i as int]@));
        i = i + 1;
    }
    assert(args@.subrange(0, args@.len() as int) =~= args@);
    all
}

} // verus!
