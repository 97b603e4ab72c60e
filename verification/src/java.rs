//! The Java runtime an instance is launched with, and the flags handed to
//! it and to the game.

use vstd::prelude::*;
use vstd::string::*;
use crate::launch::LaunchOption;
use crate::ranges::Version;
use crate::text::{
    clone_strings, decimal, decimal_string, join, joined, push_decimal, signed_decimal,
    signed_decimal_string, texts,
};
use crate::user::{user_flags, User};

verus! {

/// The version under which the launcher names itself to the game.
pub const VERSION: &'static str = "0.1.0";

/// The Java runtime of an instance.
#[derive(Clone, Debug, PartialEq, Eq)]
pub struct Java {
    /// Path to the java executable.
    pub path: String,
    /// Maximum memory allocated.
    pub memory: usize,
    /// Whether to add JVM optimization arguments.
    pub vm_opt_args: bool,
    /// Additional flags passed to the java runtime.
    pub flags: Vec<String>,
}

/// The JVM optimization arguments.
pub open spec fn vm_opt_args() -> Seq<Seq<char>> {
    seq![
        "-XX:+UnlockExperimentalVMOptions"@,
        "-XX:+UseG1GC"@,
        "-XX:G1NewSizePercent=20"@,
        "-XX:G1ReservePercent=20"@,
        "-XX:MaxGCPauseMillis=50"@,
        "-XX:G1HeapRegionSize=32m"@,
        "-XX:-UseAdaptiveSizePolicy"@,
        "-XX:-OmitStackTraceInFastThrow"@,
        "-XX:-DontCompileHugeMethods"@,
    ]
}

/// The arguments of a runtime: the memory limit, the optimization
/// arguments where they are wanted, then the additional flags.
pub open spec fn java_args(memory: usize, opt: bool, flags: Seq<Seq<char>>) -> Seq<Seq<char>> {
    seq!["-Xmx"@ + decimal(memory as nat)] + (if opt {
        vm_opt_args()
    } else {
        Seq::empty()
    }) + flags
}

impl Java {
    /// The arguments the runtime is started with, before those of the
    /// instance.
    pub fn args(&self) -> (args: Vec<String>)
        ensures
            texts(args@) == java_args(self.memory, self.vm_opt_args, texts(self.flags@)),
    {
        let mut args: Vec<String> = Vec::new();
        let mut memory = "-Xmx".to_owned();
        push_decimal(&mut memory, self.memory as u64);
        args.push(memory);
        if self.vm_opt_args {
            args.push("-XX:+UnlockExperimentalVMOptions".to_owned());
            args.push("-XX:+UseG1GC".to_owned());
            args.push("-XX:G1NewSizePercent=20".to_owned());
            args.push("-XX:G1ReservePercent=20".to_owned());
            args.push("-XX:MaxGCPauseMillis=50".to_owned());
            args.push("-XX:G1HeapRegionSize=32m".to_owned());
            args.push("-XX:-UseAdaptiveSizePolicy".to_owned());
            args.push("-XX:-OmitStackTraceInFastThrow".to_owned());
            args.push("-XX:-DontCompileHugeMethods".to_owned());
        }
        let ghost head = texts(args@);
        let mut flags = clone_strings(&self.flags);
        let ghost tail = texts(flags@);
        args.append(&mut flags);
        proof {
            assert(texts(args@) =~= head + tail);
            assert(head =~= seq!["-Xmx"@ + decimal(self.memory as nat)] + (if self.vm_opt_args {
                vm_opt_args()
            } else {
                Seq::empty()
            }));
        }
        args
    }
}

/// Where the files of a deployed instance lie, and what the game is told
/// of them.
#[derive(Clone, Debug, PartialEq, Eq)]
pub struct GameFiles {
    /// Directory of the native libraries.
    pub lwjgl: String,
    /// The class path, library by library.
    pub java_libs: Vec<String>,
    /// Directory of the assets.
    pub asset: String,
    /// Version of the game.
    pub version: Version,
    /// Initial window width.
    pub width: i32,
    /// Initial window height.
    pub height: i32,
    /// Additional flags passed to the game.
    pub game_flags: Vec<String>,
}

/// A deployed instance: whom it is launched for, with which runtime, and
/// where its files lie.
#[derive(Clone, Debug, PartialEq, Eq)]
pub struct InstConfig {
    /// Name of the instance.
    pub name: String,
    pub user: User,
    pub java: Java,
    pub mc: GameFiles,
}

/// Whether a path names a file with the extension `jar`: it ends in `.jar`
/// and its file name is longer than that.
pub open spec fn is_jar(path: Seq<char>) -> bool {
    &&& path.len() > 4
    &&& path.subrange(path.len() - 4, path.len() as int) == ".jar"@
    &&& path[path.len() - 5] != '/'
}

/// The paths of a list that name a jar, in order.
pub open spec fn jars(paths: Seq<Seq<char>>) -> Seq<Seq<char>>
    decreases paths.len(),
{
    if paths.len() == 0 {
        Seq::empty()
    } else if is_jar(paths.last()) {
        jars(paths.drop_last()).push(paths.last())
    } else {
        jars(paths.drop_last())
    }
}

/// The parts joined by colons.
pub open spec fn colon_joined(parts: Seq<Seq<char>>) -> Seq<char>
    decreases parts.len(),
{
    if parts.len() == 0 {
        Seq::empty()
    } else if parts.len() == 1 {
        parts[0]
    } else {
        colon_joined(parts.drop_last()) + seq![':'] + parts.last()
    }
}

/// The flags that every instance hands to the runtime.
pub open spec fn common_java_flags() -> Seq<Seq<char>> {
    seq![
        "-Dfile.encoding=UTF-8"@,
        "-Dstdout.encoding=UTF-8"@,
        "-Dstderr.encoding=UTF-8"@,
        "-Duser.home=null"@,
        "-Djava.rmi.server.useCodebaseOnly=true"@,
        "-Dcom.sun.jndi.rmi.object.trustURLCodebase=false"@,
        "-Dcom.sun.jndi.cosnaming.object.trustURLCodebase=false"@,
        "-Dlog4j2.formatMsgNoLookups=true"@,
    ]
}

/// The flags an instance in the directory `dir` hands to the runtime: the
/// common flags, the logging configuration and the game jar under `dir`,
/// the directory of the native libraries, the launcher's name and version,
/// and the class path, which ends with the game jar.
pub open spec fn instance_java_flags(
    dir: Seq<char>,
    lwjgl: Seq<char>,
    java_libs: Seq<Seq<char>>,
) -> Seq<Seq<char>> {
    common_java_flags() + seq![
        "-Dlog4j.configurationFile="@ + joined(dir, "log4j2.xml"@),
        "-Dminecraft.client.jar="@ + joined(dir, "minecraft.jar"@),
        "-Djava.library.path="@ + lwjgl,
        "-Dminecraft.launcher.brand=creeper"@,
        "-Dminecraft.launcher.version="@ + VERSION@,
        "-cp"@,
        colon_joined(java_libs.push(joined(dir, "minecraft.jar"@))),
    ]
}

/// The flags an instance in the directory `dir` hands to the game, before
/// those of the account and the additional ones.
pub open spec fn instance_game_flags(
    name: Seq<char>,
    dir: Seq<char>,
    asset: Seq<char>,
    version: Version,
    width: i32,
    height: i32,
) -> Seq<Seq<char>> {
    seq![
        "--version"@,
        name,
        "--versionType"@,
        "creeper "@ + VERSION@,
        "--gameDir"@,
        dir,
        "--assetsDir"@,
        asset,
        "--assetIndex"@,
        decimal(version.major as nat) + seq!['.'] + decimal(version.minor as nat),
        "--width"@,
        signed_decimal(width as int),
        "--height"@,
        signed_decimal(height as int),
    ]
}

/// The parts joined by colons.
fn join_colon(parts: &Vec<String>) -> (out: String)
    ensures
        out@ == colon_joined(texts(parts@)),
{
    let ghost all = texts(parts@);
    let mut out = String::new();
    let mut i: usize = 0;
    proof {
        assert(all.take(0) =~= Seq::<Seq<char>>::empty());
    }
    while i < parts.len()
        invariant
            i <= parts@.len(),
            all == texts(parts@),
            out@ == colon_joined(all.take(i as int)),
        decreases parts@.len() - i,
    {
        proof {
            assert(all.take(i + 1).drop_last() =~= all.take(i as int));
            assert(all.take(i + 1).last() == parts@[i as int]@);
        }
        if i > 0 {
            out.push(':');
        }
        out.append(parts[i].as_str());
        proof {
            if i == 0 {
                assert(out@ =~= parts@[0]@);
                assert(all.take(1)[0] == parts@[0]@);
            }
        }
        i += 1;
    }
    proof {
        assert(all.take(i as int) =~= all);
    }
    out
}

/// `prefix` followed by `rest`.
fn prefixed(prefix: &str, rest: &str) -> (out: String)
    ensures
        out@ == prefix@ + rest@,
{
    let mut out = prefix.to_owned();
    out.append(rest);
    out
}

/// Whether a path names a file with the extension `jar`.
fn jar(path: &str) -> (yes: bool)
    ensures
        yes == is_jar(path@),
{
    let n = path.unicode_len();
    if n <= 4 {
        return false;
    }
    crate::text::str_eq(path.substring_char(n - 4, n), ".jar") && path.get_char(n - 5) != '/'
}

impl InstConfig {
    /// The class path of a library directory: of the files found under it,
    /// those with the extension `jar`, in the order in which they were
    /// found.
    pub fn java_class_path(files: &Vec<String>) -> (found: Vec<String>)
        ensures
            texts(found@) == jars(texts(files@)),
    {
        let ghost all = texts(files@);
        let mut found: Vec<String> = Vec::new();
        let mut i: usize = 0;
        proof {
            assert(texts(found@) =~= jars(all.take(0)));
        }
        while i < files.len()
            invariant
                i <= files@.len(),
                all == texts(files@),
                texts(found@) == jars(all.take(i as int)),
            decreases files@.len() - i,
        {
            proof {
                assert(all.take(i + 1).drop_last() =~= all.take(i as int));
                assert(all.take(i + 1).last() == files@[i as int]@);
            }
            let ghost before = texts(found@);
            if jar(files[i].as_str()) {
                found.push(files[i].clone());
                proof {
                    assert(texts(found@) =~= before.push(files@[i as int]@));
                }
            }
            i += 1;
        }
        proof {
            assert(all.take(i as int) =~= all);
        }
        found
    }

    /// The flags the instance in the directory `dir` hands to the runtime.
    pub fn java_flags(&self, dir: &str) -> (flags: Vec<String>)
        ensures
            texts(flags@) == instance_java_flags(dir@, self.mc.lwjgl@, texts(self.mc.java_libs@)),
    {
        let mut flags: Vec<String> = Vec::new();
        flags.push("-Dfile.encoding=UTF-8".to_owned());
        flags.push("-Dstdout.encoding=UTF-8".to_owned());
        flags.push("-Dstderr.encoding=UTF-8".to_owned());
        flags.push("-Duser.home=null".to_owned());
        flags.push("-Djava.rmi.server.useCodebaseOnly=true".to_owned());
        flags.push("-Dcom.sun.jndi.rmi.object.trustURLCodebase=false".to_owned());
        flags.push("-Dcom.sun.jndi.cosnaming.object.trustURLCodebase=false".to_owned());
        flags.push("-Dlog4j2.formatMsgNoLookups=true".to_owned());
        let log = join(dir, "log4j2.xml");
        let jar = join(dir, "minecraft.jar");
        flags.push(prefixed("-Dlog4j.configurationFile=", log.as_str()));
        flags.push(prefixed("-Dminecraft.client.jar=", jar.as_str()));
        flags.push(prefixed("-Djava.library.path=", self.mc.lwjgl.as_str()));
        flags.push("-Dminecraft.launcher.brand=creeper".to_owned());
        flags.push(prefixed("-Dminecraft.launcher.version=", VERSION));
        let mut cp = clone_strings(&self.mc.java_libs);
        let ghost libs = texts(cp@);
        cp.push(jar);
        proof {
            assert(texts(cp@) =~= libs.push(joined(dir@, "minecraft.jar"@)));
        }
        flags.push("-cp".to_owned());
        flags.push(join_colon(&cp));
        proof {
            assert(texts(flags@) =~= instance_java_flags(
                dir@,
                self.mc.lwjgl@,
                texts(self.mc.java_libs@),
            ));
        }
        flags
    }

    /// The flags the instance in the directory `dir` hands to the game:
    /// its own, then those of the account, then the additional ones.
    pub fn game_flags(&self, dir: &str) -> (flags: Vec<String>)
        ensures
            texts(flags@) == instance_game_flags(
                self.name@,
                dir@,
                self.mc.asset@,
                self.mc.version,
                self.mc.width,
                self.mc.height,
            ) + user_flags(self.user.name@, self.user.uuid@, self.user.token@) + texts(
                self.mc.game_flags@,
            ),
    {
        let mut flags: Vec<String> = Vec::new();
        flags.push("--version".to_owned());
        flags.push(self.name.clone());
        flags.push("--versionType".to_owned());
        flags.push(prefixed("creeper ", VERSION));
        flags.push("--gameDir".to_owned());
        flags.push(dir.to_owned());
        flags.push("--assetsDir".to_owned());
        flags.push(self.mc.asset.clone());
        flags.push("--assetIndex".to_owned());
        let mut index = decimal_string(self.mc.version.major);
        index.push('.');
        push_decimal(&mut index, self.mc.version.minor);
        proof {
            assert(index@ =~= decimal(self.mc.version.major as nat) + seq!['.'] + decimal(
                self.mc.version.minor as nat,
            ));
        }
        flags.push(index);
        flags.push("--width".to_owned());
        flags.push(signed_decimal_string(self.mc.width));
        flags.push("--height".to_owned());
        flags.push(signed_decimal_string(self.mc.height));
        let ghost own = texts(flags@);
        proof {
            assert(own =~= instance_game_flags(
                self.name@,
                dir@,
                self.mc.asset@,
                self.mc.version,
                self.mc.width,
                self.mc.height,
            ));
        }
        let mut user = self.user.game_flags();
        let ghost of_user = texts(user@);
        flags.append(&mut user);
        let mut more = clone_strings(&self.mc.game_flags);
        let ghost of_more = texts(more@);
        flags.append(&mut more);
        proof {
            assert(texts(flags@) =~= own + of_user + of_more);
        }
        flags
    }
}

} // verus!
