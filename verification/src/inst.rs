//! The configuration of a game instance.

use vstd::prelude::*;
use crate::java::Java;
use crate::search::{first_index, lemma_first_index};
use crate::user::User;

verus! {

/// The initial window width where the instance file names none.
pub const DEFAULT_WIDTH: i32 = 854;

/// The initial window height where the instance file names none.
pub const DEFAULT_HEIGHT: i32 = 480;

/// A game instance, as its instance file defines it.
#[derive(Clone, Debug, PartialEq, Eq)]
pub struct Inst {
    /// Name of the instance.
    pub name: String,
    pub user: User,
    pub java: Java,
    /// Minecraft configuration.
    pub mc: MCConfig,
}

/// The Minecraft part of an instance.
#[derive(Clone, Debug, PartialEq, Eq)]
pub struct MCConfig {
    /// Additional flags passed to the game.
    pub game_flags: Vec<String>,
    /// Initial window width.
    pub width: i32,
    /// Initial window height.
    pub height: i32,
}

/// One directory on the way from a start directory up to the root, and
/// whether it holds an instance file.
#[derive(Clone, Debug, PartialEq, Eq)]
pub struct Ancestor {
    pub dir: String,
    pub has_instance_file: bool,
}

/// Whether a directory holds an instance file.
pub open spec fn holds_instance_file() -> spec_fn(Ancestor) -> bool {
    |dir: Ancestor| dir.has_instance_file
}

/// The index of the first directory that holds an instance file, or the
/// number of directories if none does.
pub open spec fn instance_position(chain: Seq<Ancestor>) -> int {
    first_index(chain, holds_instance_file())
}

impl Inst {
    /// The directory of the instance that a path belongs to: the nearest
    /// directory of `chain` that holds an instance file. The chain starts
    /// at the path itself and goes up parent by parent.
    pub fn find_dir(chain: &Vec<Ancestor>) -> (dir: Option<String>)
        ensures
            match dir {
                Some(dir) => instance_position(chain@) < chain@.len() && dir@
                    == chain@[instance_position(chain@)].dir@,
                None => instance_position(chain@) == chain@.len(),
            },
    {
        let mut i: usize = 0;
        while i < chain.len()
            invariant
                i <= chain@.len(),
                forall|j: int| 0 <= j < i ==> !(#[trigger] chain@[j]).has_instance_file,
            decreases chain@.len() - i,
        {
            if chain[i].has_instance_file {
                proof {
                    lemma_first_index(chain@, holds_instance_file(), i as int);
                }
                return Some(chain[i].dir.clone());
            }
            i += 1;
        }
        proof {
            lemma_first_index(chain@, holds_instance_file(), i as int);
        }
        None
    }
}

impl MCConfig {
    /// The configuration of an instance file that names no Minecraft
    /// setting: no extra flags and the default window size.
    pub fn new() -> (mc: Self)
        ensures
            mc.game_flags@.len() == 0,
            mc.width == DEFAULT_WIDTH,
            mc.height == DEFAULT_HEIGHT,
    {
        MCConfig { game_flags: Vec::new(), width: DEFAULT_WIDTH, height: DEFAULT_HEIGHT }
    }
}

} // verus!
