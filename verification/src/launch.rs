//! What the parts of an instance contribute to the command that launches
//! the game: environment variables, Java flags and game flags.

use vstd::prelude::*;
use vstd::string::*;
use crate::search::{first_index, lemma_first_index};
use crate::text::{str_eq, texts};

verus! {

/// What a list of variables holds: name and value of each.
pub open spec fn env_views(v: Seq<(String, String)>) -> Seq<(Seq<char>, Seq<char>)> {
    Seq::new(v.len(), |i: int| (v[i].0@, v[i].1@))
}

/// Whether a variable is named `name`.
pub open spec fn env_named(name: Seq<char>) -> spec_fn((Seq<char>, Seq<char>)) -> bool {
    |variable: (Seq<char>, Seq<char>)| variable.0 == name
}

/// The index of the first variable named `name`, or the number of
/// variables if none is.
pub open spec fn env_position(env: Seq<(Seq<char>, Seq<char>)>, name: Seq<char>) -> int {
    first_index(env, env_named(name))
}

/// The variables after one was set: a variable of that name takes the new
/// value in place, otherwise the variable is added at the end.
pub open spec fn env_set(
    env: Seq<(Seq<char>, Seq<char>)>,
    name: Seq<char>,
    value: Seq<char>,
) -> Seq<(Seq<char>, Seq<char>)> {
    let at = env_position(env, name);
    if at < env.len() {
        env.update(at, (name, value))
    } else {
        env.push((name, value))
    }
}

/// The variables after each of `more` was set, from first to last.
pub open spec fn env_extended(
    env: Seq<(Seq<char>, Seq<char>)>,
    more: Seq<(Seq<char>, Seq<char>)>,
) -> Seq<(Seq<char>, Seq<char>)>
    decreases more.len(),
{
    if more.len() == 0 {
        env
    } else {
        env_set(env_extended(env, more.drop_last()), more.last().0, more.last().1)
    }
}

/// Something that contributes to the launch command. What it contributes
/// is up to the implementation; what an implementation leaves out
/// contributes nothing.
pub trait LaunchOption {
    /// The environment variables to set. None, unless the implementation
    /// says otherwise.
    fn envs(&self) -> (envs: Vec<(String, String)>)
        default_ensures
            envs@ == Seq::<(String, String)>::empty(),
    {
        Vec::new()
    }

    /// The flags for the Java runtime. None, unless the implementation says
    /// otherwise.
    fn java_flags(&self) -> (flags: Vec<String>)
        default_ensures
            flags@ == Seq::<String>::empty(),
    {
        Vec::new()
    }

    /// The flags for the game. None, unless the implementation says
    /// otherwise.
    fn game_flags(&self) -> (flags: Vec<String>)
        default_ensures
            flags@ == Seq::<String>::empty(),
    {
        Vec::new()
    }
}

/// The command that launches the game, as it accumulates.
#[derive(Debug, PartialEq, Eq)]
pub struct LaunchCommand {
    envs: Vec<(String, String)>,
    java_flags: Vec<String>,
    game_flags: Vec<String>,
}

impl LaunchCommand {
    /// The environment variables, each name once.
    pub closed spec fn spec_envs(&self) -> Seq<(Seq<char>, Seq<char>)> {
        env_views(self.envs@)
    }

    /// The flags for the Java runtime.
    pub closed spec fn spec_java_flags(&self) -> Seq<Seq<char>> {
        texts(self.java_flags@)
    }

    /// The flags for the game.
    pub closed spec fn spec_game_flags(&self) -> Seq<Seq<char>> {
        texts(self.game_flags@)
    }

    /// The command without variables and flags.
    pub fn new() -> (cmd: Self)
        ensures
            cmd.spec_envs().len() == 0,
            cmd.spec_java_flags().len() == 0,
            cmd.spec_game_flags().len() == 0,
    {
        LaunchCommand { envs: Vec::new(), java_flags: Vec::new(), game_flags: Vec::new() }
    }

    /// The environment variables.
    pub fn envs(&self) -> (envs: &Vec<(String, String)>)
        ensures
            env_views(envs@) == self.spec_envs(),
    {
        &self.envs
    }

    /// The flags for the Java runtime.
    pub fn java_flags(&self) -> (flags: &Vec<String>)
        ensures
            texts(flags@) == self.spec_java_flags(),
    {
        &self.java_flags
    }

    /// The flags for the game.
    pub fn game_flags(&self) -> (flags: &Vec<String>)
        ensures
            texts(flags@) == self.spec_game_flags(),
    {
        &self.game_flags
    }

    fn set_env(&mut self, name: String, value: String)
        ensures
            final(self).spec_envs() == env_set(old(self).spec_envs(), name@, value@),
            final(self).spec_java_flags() == old(self).spec_java_flags(),
            final(self).spec_game_flags() == old(self).spec_game_flags(),
    {
        let ghost before = self.spec_envs();
        let mut i: usize = 0;
        while i < self.envs.len()
            invariant
                i <= self.envs@.len(),
                *self == *old(self),
                before == self.spec_envs(),
                forall|j: int| 0 <= j < i ==> (#[trigger] before[j]).0 != name@,
            decreases self.envs@.len() - i,
        {
            if str_eq(self.envs[i].0.as_str(), name.as_str()) {
                proof {
                    assert(before[i as int].0 == name@);
                    lemma_first_index(before, env_named(name@), i as int);
                }
                self.envs.set(i, (name, value));
                proof {
                    assert(self.spec_envs() =~= before.update(i as int, (name@, value@)));
                }
                return ;
            }
            proof {
                assert(before[i as int].0 == self.envs@[i as int].0@);
            }
            i += 1;
        }
        proof {
            lemma_first_index(before, env_named(name@), i as int);
        }
        self.envs.push((name, value));
        proof {
            assert(self.spec_envs() =~= before.push((name@, value@)));
        }
    }

    /// Adds what was contributed: each variable is set, from first to
    /// last, and the flags are appended.
    pub fn add_parts(
        &mut self,
        envs: Vec<(String, String)>,
        java_flags: Vec<String>,
        game_flags: Vec<String>,
    )
        ensures
            final(self).spec_envs() == env_extended(old(self).spec_envs(), env_views(envs@)),
            final(self).spec_java_flags() == old(self).spec_java_flags() + texts(java_flags@),
            final(self).spec_game_flags() == old(self).spec_game_flags() + texts(game_flags@),
    {
        let ghost more = env_views(envs@);
        let mut i: usize = 0;
        while i < envs.len()
            invariant
                i <= envs@.len(),
                more == env_views(envs@),
                self.spec_envs() == env_extended(old(self).spec_envs(), more.take(i as int)),
                self.spec_java_flags() == old(self).spec_java_flags(),
                self.spec_game_flags() == old(self).spec_game_flags(),
            decreases envs@.len() - i,
        {
            proof {
                assert(more.take(i + 1).drop_last() =~= more.take(i as int));
                assert(more.take(i + 1).last() == more[i as int]);
            }
            self.set_env(envs[i].0.clone(), envs[i].1.clone());
            i += 1;
        }
        proof {
            assert(more.take(i as int) =~= more);
        }
        let mut more_java = java_flags;
        let mut more_game = game_flags;
        let ghost java_before = texts(self.java_flags@);
        let ghost game_before = texts(self.game_flags@);
        self.java_flags.append(&mut more_java);
        self.game_flags.append(&mut more_game);
        proof {
            assert(texts(self.java_flags@) =~= java_before + texts(java_flags@));
            assert(texts(self.game_flags@) =~= game_before + texts(game_flags@));
        }
    }

    /// Whether `after` is `self` with the given contribution added.
    pub open spec fn with_parts(
        &self,
        envs: Seq<(Seq<char>, Seq<char>)>,
        java_flags: Seq<Seq<char>>,
        game_flags: Seq<Seq<char>>,
        after: &LaunchCommand,
    ) -> bool {
        &&& after.spec_envs() == env_extended(self.spec_envs(), envs)
        &&& after.spec_java_flags() == self.spec_java_flags() + java_flags
        &&& after.spec_game_flags() == self.spec_game_flags() + game_flags
    }

    /// Adds what `opt` contributes: what its three methods return is added
    /// as [`LaunchCommand::add_parts`] says.
    pub fn add<T: LaunchOption>(&mut self, opt: T)
        ensures
            exists|envs: Vec<(String, String)>, java: Vec<String>, game: Vec<String>|
                {
                    &&& call_ensures(T::envs, (&opt,), envs)
                    &&& call_ensures(T::java_flags, (&opt,), java)
                    &&& call_ensures(T::game_flags, (&opt,), game)
                    &&& #[trigger] old(self).with_parts(
                        env_views(envs@),
                        texts(java@),
                        texts(game@),
                        final(self),
                    )
                },
    {
        let envs = opt.envs();
        let java_flags = opt.java_flags();
        let game_flags = opt.game_flags();
        let ghost e = envs;
        let ghost j = java_flags;
        let ghost g = game_flags;
        self.add_parts(envs, java_flags, game_flags);
        proof {
            assert(call_ensures(T::envs, (&opt,), e));
            assert(call_ensures(T::java_flags, (&opt,), j));
            assert(call_ensures(T::game_flags, (&opt,), g));
            assert(old(self).with_parts(env_views(e@), texts(j@), texts(g@), &*self));
        }
    }
}

} // verus!
