use creeper::inst::{Ancestor, Inst};
use creeper::java::{GameFiles, InstConfig, Java, VERSION};
use creeper::launch::{LaunchCommand, LaunchOption};
use creeper::path::{creeper_cache_dir, creeper_data_dir, creeper_mc_dir, index_file, staging_file};
use creeper::ranges::Version;
use creeper::text::{decimal_string, find_char, join, signed_decimal_string, str_eq};
use creeper::user::{User, UserType};

fn user() -> User {
    User {
        name: "alex".into(),
        uuid: "1234".into(),
        token: "SECRET-REDACTED".into(),
        user_type: UserType::MSA,
    }
}

fn config() -> InstConfig {
    InstConfig {
        name: "survival".into(),
        user: user(),
        java: Java {
            path: "/usr/bin/java".into(),
            memory: 2048,
            vm_opt_args: false,
            flags: vec!["-Dx=y".into()],
        },
        mc: GameFiles {
            lwjgl: "/inst/natives".into(),
            java_libs: vec!["/inst/libraries/0".into(), "/inst/libraries/1".into()],
            asset: "/inst/assets".into(),
            version: Version::new(1, 21, 4),
            width: 854,
            height: -1,
            game_flags: vec!["--demo".into()],
        },
    }
}

struct Everything;

impl LaunchOption for Everything {
    fn envs(&self) -> Vec<(String, String)> {
        vec![
            ("INST_NAME".into(), "one".into()),
            ("INST_DIR".into(), "/inst".into()),
            ("INST_NAME".into(), "two".into()),
        ]
    }

    fn java_flags(&self) -> Vec<String> {
        vec!["-Xmx1".into()]
    }

    fn game_flags(&self) -> Vec<String> {
        vec!["--fullscreen".into()]
    }
}

struct Nothing;

impl LaunchOption for Nothing {}

#[test]
fn new_command_is_empty() {
    let cmd = LaunchCommand::new();
    assert!(cmd.envs().is_empty());
    assert!(cmd.java_flags().is_empty());
    assert!(cmd.game_flags().is_empty());
}

#[test]
fn add_collects_what_options_contribute() {
    let mut cmd = LaunchCommand::new();
    cmd.add(Nothing);
    assert_eq!(cmd, LaunchCommand::new());
    cmd.add(user());
    assert!(cmd.envs().is_empty());
    assert!(cmd.java_flags().is_empty());
    assert_eq!(cmd.game_flags().len(), 8);
    cmd.add(Everything);
    assert_eq!(
        cmd.envs(),
        &vec![
            ("INST_NAME".to_string(), "two".to_string()),
            ("INST_DIR".to_string(), "/inst".to_string())
        ]
    );
    assert_eq!(cmd.java_flags(), &vec!["-Xmx1".to_string()]);
    assert_eq!(cmd.game_flags().len(), 9);
    assert_eq!(cmd.game_flags()[0], "--username");
    assert_eq!(cmd.game_flags()[8], "--fullscreen");
}

#[test]
fn add_parts_sets_variables_in_order() {
    let mut cmd = LaunchCommand::new();
    cmd.add_parts(vec![("A".into(), "1".into()), ("B".into(), "2".into())], vec![], vec![]);
    cmd.add_parts(
        vec![("B".into(), "3".into()), ("C".into(), "4".into())],
        vec!["-j".into()],
        vec!["-g".into()],
    );
    assert_eq!(
        cmd.envs(),
        &vec![
            ("A".to_string(), "1".to_string()),
            ("B".to_string(), "3".to_string()),
            ("C".to_string(), "4".to_string())
        ]
    );
    assert_eq!(cmd.java_flags(), &vec!["-j".to_string()]);
    assert_eq!(cmd.game_flags(), &vec!["-g".to_string()]);
}

#[test]
fn default_options_contribute_nothing() {
    assert!(Nothing.envs().is_empty());
    assert!(Nothing.java_flags().is_empty());
    assert!(Nothing.game_flags().is_empty());
    assert!(user().envs().is_empty());
    assert!(user().java_flags().is_empty());
}

#[test]
fn runtime_arguments() {
    let mut java = config().java;
    assert_eq!(java.args(), vec!["-Xmx2048", "-Dx=y"]);
    java.vm_opt_args = true;
    java.memory = 0;
    assert_eq!(
        java.args(),
        vec![
            "-Xmx0",
            "-XX:+UnlockExperimentalVMOptions",
            "-XX:+UseG1GC",
            "-XX:G1NewSizePercent=20",
            "-XX:G1ReservePercent=20",
            "-XX:MaxGCPauseMillis=50",
            "-XX:G1HeapRegionSize=32m",
            "-XX:-UseAdaptiveSizePolicy",
            "-XX:-OmitStackTraceInFastThrow",
            "-XX:-DontCompileHugeMethods",
            "-Dx=y"
        ]
    );
}

#[test]
fn instance_java_flags() {
    assert_eq!(
        config().java_flags("/inst"),
        vec![
            "-Dfile.encoding=UTF-8".to_string(),
            "-Dstdout.encoding=UTF-8".to_string(),
            "-Dstderr.encoding=UTF-8".to_string(),
            "-Duser.home=null".to_string(),
            "-Djava.rmi.server.useCodebaseOnly=true".to_string(),
            "-Dcom.sun.jndi.rmi.object.trustURLCodebase=false".to_string(),
            "-Dcom.sun.jndi.cosnaming.object.trustURLCodebase=false".to_string(),
            "-Dlog4j2.formatMsgNoLookups=true".to_string(),
            "-Dlog4j.configurationFile=/inst/log4j2.xml".to_string(),
            "-Dminecraft.client.jar=/inst/minecraft.jar".to_string(),
            "-Djava.library.path=/inst/natives".to_string(),
            "-Dminecraft.launcher.brand=creeper".to_string(),
            format!("-Dminecraft.launcher.version={VERSION}"),
            "-cp".to_string(),
            "/inst/libraries/0:/inst/libraries/1:/inst/minecraft.jar".to_string(),
        ]
    );
    let mut bare = config();
    bare.mc.java_libs.clear();
    assert_eq!(bare.java_flags("d").last().map(String::as_str), Some("d/minecraft.jar"));
}

#[test]
fn instance_game_flags() {
    assert_eq!(
        config().game_flags("/inst"),
        vec![
            "--version".to_string(),
            "survival".to_string(),
            "--versionType".to_string(),
            format!("creeper {VERSION}"),
            "--gameDir".to_string(),
            "/inst".to_string(),
            "--assetsDir".to_string(),
            "/inst/assets".to_string(),
            "--assetIndex".to_string(),
            "1.21".to_string(),
            "--width".to_string(),
            "854".to_string(),
            "--height".to_string(),
            "-1".to_string(),
            "--username".to_string(),
            "alex".to_string(),
            "--uuid".to_string(),
            "1234".to_string(),
            "--accessToken".to_string(),
            "SECRET-REDACTED".to_string(),
            "--userType".to_string(),
            "msa".to_string(),
            "--demo".to_string(),
        ]
    );
}

#[test]
fn nearest_instance_directory() {
    let at = |dir: &str, has| Ancestor { dir: dir.into(), has_instance_file: has };
    let chain = vec![at("/a/b/c", false), at("/a/b", true), at("/a", true), at("/", false)];
    assert_eq!(Inst::find_dir(&chain), Some("/a/b".to_string()));
    let chain = vec![at("/a/b", true)];
    assert_eq!(Inst::find_dir(&chain), Some("/a/b".to_string()));
    let chain = vec![at("/a/b", false), at("/a", false), at("/", false)];
    assert_eq!(Inst::find_dir(&chain), None);
    assert_eq!(Inst::find_dir(&vec![]), None);
}

#[test]
fn application_directories() {
    assert_eq!(creeper_data_dir("/home/u/.local/share"), "/home/u/.local/share/creeper");
    assert_eq!(creeper_cache_dir("/home/u/.cache"), "/home/u/.cache/creeper");
    assert_eq!(creeper_mc_dir("/home/u/.local/share"), "/home/u/.local/share/creeper/minecraft");
    assert_eq!(index_file("/data/creeper"), "/data/creeper/storage-index.db");
}

#[test]
fn staging_file_is_named_by_the_digest_of_the_url() {
    let url = "http://x/a";
    let expected = format!("/cache/{}", blake3::hash(url.as_bytes()).to_hex());
    assert_eq!(staging_file("/cache", url), expected);
    assert_ne!(staging_file("/cache", "http://x/b"), expected);
}

#[test]
fn decimal_text() {
    assert_eq!(decimal_string(0), "0");
    assert_eq!(decimal_string(7), "7");
    assert_eq!(decimal_string(10), "10");
    assert_eq!(decimal_string(1234567890), "1234567890");
    assert_eq!(decimal_string(u64::MAX), "18446744073709551615");
    assert_eq!(signed_decimal_string(0), "0");
    assert_eq!(signed_decimal_string(480), "480");
    assert_eq!(signed_decimal_string(-1), "-1");
    assert_eq!(signed_decimal_string(i32::MIN), "-2147483648");
    assert_eq!(signed_decimal_string(i32::MAX), "2147483647");
}

#[test]
fn text_helpers() {
    assert_eq!(join("a", "b"), "a/b");
    assert_eq!(join("", ""), "/");
    assert!(str_eq("abc", "abc"));
    assert!(!str_eq("abc", "abd"));
    assert!(!str_eq("abc", "ab"));
    assert_eq!(find_char("a=b=c", '='), 1);
    assert_eq!(find_char("abc", '='), 3);
    assert_eq!(find_char("é=", '='), 1);
    assert_eq!(find_char("", '='), 0);
}

#[test]
fn class_path_keeps_the_jars() {
    let files: Vec<String> = [
        "/inst/libraries/a.jar",
        "/inst/libraries/readme.txt",
        "/inst/libraries/sub/b.jar",
        "/inst/libraries/.jar",
        ".jar",
        "jar",
        "c.JAR",
        "d.jar.sha1",
        "e.tar.jar",
        "..jar",
        "",
    ]
    .iter()
    .map(|s| s.to_string())
    .collect();
    assert_eq!(
        InstConfig::java_class_path(&files),
        vec!["/inst/libraries/a.jar", "/inst/libraries/sub/b.jar", "e.tar.jar", "..jar"]
    );
    for file in &files {
        let expected = std::path::Path::new(file).extension().is_some_and(|ext| ext == "jar");
        assert_eq!(InstConfig::java_class_path(&vec![file.clone()]).len() == 1, expected, "{file}");
    }
    assert!(InstConfig::java_class_path(&vec![]).is_empty());
}
