use creeper::inst::{Inst, MCConfig, DEFAULT_HEIGHT, DEFAULT_WIDTH};
use creeper::java::Java;
use creeper::launch::LaunchOption;
use creeper::lock::{Deployment, LockBuilder, LockError};
use creeper::pack::{FileMap, Install};
use creeper::storage::Artifact;
use creeper::user::{User, UserType};

fn art(digest: &str) -> Artifact {
    Artifact::new(digest.into(), format!("{digest}.jar"), format!("http://x/{digest}"), 1)
}

fn inst() -> Inst {
    Inst {
        name: "test".into(),
        user: User {
            name: "steve".into(),
            uuid: "0000".into(),
            token: "SECRET-REDACTED".into(),
            user_type: UserType::MSA,
        },
        java: Java { path: "/usr/bin/java".into(), memory: 4096, vm_opt_args: true, flags: vec![] },
        mc: MCConfig::new(),
    }
}

fn sample(tag: &str) -> Install {
    let mut native = FileMap::new();
    native.insert(format!("natives/{tag}.so"), art(&format!("{tag}-native")));
    native.insert("natives/shared.so".into(), art(&format!("{tag}-shared")));
    Install {
        java_lib: vec![art(&format!("{tag}-lib1")), art(&format!("{tag}-lib2"))],
        java_main_class: Some(format!("{tag}.Main")),
        native,
        java_flag: vec![format!("-D{tag}")],
        mc_jar: Some(art(&format!("{tag}-jar"))),
        mc_flag: vec![format!("--{tag}")],
        mc_asset_index: Some(art(&format!("{tag}-assets"))),
        mc_mod: vec![art(&format!("{tag}-mod"))],
    }
}

#[test]
fn file_map_keeps_the_first_entry_of_a_path() {
    let mut map = FileMap::new();
    assert!(map.is_empty());
    assert!(map.insert("a".into(), art("one")));
    assert!(map.insert("b".into(), art("two")));
    assert!(!map.insert("a".into(), art("three")));
    assert_eq!(map.len(), 2);
    assert_eq!(map.get("a"), Some(&art("one")));
    assert_eq!(map.get("b"), Some(&art("two")));
    assert_eq!(map.get("c"), None);
    assert!(map.contains("a"));
    assert!(!map.contains("c"));
    assert_eq!(map.path_at(0), "a");
    assert_eq!(map.artifact_at(1), &art("two"));
}

#[test]
fn file_map_union_left_wins() {
    let mut left = FileMap::new();
    left.insert("x".into(), art("left-x"));
    left.insert("y".into(), art("left-y"));
    let mut right = FileMap::new();
    right.insert("z".into(), art("right-z"));
    right.insert("x".into(), art("right-x"));
    left.extend(right);
    assert_eq!(left.len(), 3);
    assert_eq!(left.get("x"), Some(&art("left-x")));
    assert_eq!(left.get("y"), Some(&art("left-y")));
    assert_eq!(left.get("z"), Some(&art("right-z")));
    assert_eq!(left.path_at(2), "z");
}

#[test]
fn default_install_is_empty() {
    let empty = Install::default();
    assert_eq!(empty, Install::new());
    assert!(empty.java_lib.is_empty());
    assert_eq!(empty.java_main_class, None);
    assert!(empty.native.is_empty());
    assert!(empty.java_flag.is_empty());
    assert_eq!(empty.mc_jar, None);
    assert!(empty.mc_flag.is_empty());
    assert_eq!(empty.mc_asset_index, None);
    assert!(empty.mc_mod.is_empty());
}

#[test]
fn merge_with_empty_is_identity() {
    assert_eq!(sample("a").merge(Install::new()), sample("a"));
    assert_eq!(Install::new().merge(sample("a")), sample("a"));
    assert_eq!(Install::new().merge(Install::new()), Install::new());
}

#[test]
fn merge_is_field_wise() {
    let merged = sample("a").merge(sample("b"));
    assert_eq!(merged.java_lib, vec![art("a-lib1"), art("a-lib2"), art("b-lib1"), art("b-lib2")]);
    assert_eq!(merged.java_main_class.as_deref(), Some("a.Main"));
    assert_eq!(merged.java_flag, vec!["-Da", "-Db"]);
    assert_eq!(merged.mc_jar, Some(art("a-jar")));
    assert_eq!(merged.mc_flag, vec!["--a", "--b"]);
    assert_eq!(merged.mc_asset_index, Some(art("a-assets")));
    assert_eq!(merged.mc_mod, vec![art("a-mod"), art("b-mod")]);
    assert_eq!(merged.native.len(), 3);
    assert_eq!(merged.native.path_at(0), "natives/a.so");
    assert_eq!(merged.native.path_at(1), "natives/shared.so");
    assert_eq!(merged.native.path_at(2), "natives/b.so");
    assert_eq!(merged.native.get("natives/shared.so"), Some(&art("a-shared")));
}

#[test]
fn merge_fills_what_is_missing() {
    let mut first = Install::new();
    first.java_flag.push("-Dfirst".into());
    let merged = first.merge(sample("b"));
    assert_eq!(merged.java_main_class.as_deref(), Some("b.Main"));
    assert_eq!(merged.mc_jar, Some(art("b-jar")));
    assert_eq!(merged.mc_asset_index, Some(art("b-assets")));
    assert_eq!(merged.java_flag, vec!["-Dfirst", "-Db"]);
}

#[test]
fn merge_accumulates_in_order() {
    let left = sample("a").merge(sample("b")).merge(sample("c"));
    let right = sample("a").merge(sample("b").merge(sample("c")));
    assert_eq!(left, right);
    let mut all = sample("a");
    all.extend(vec![sample("b"), sample("c")]);
    assert_eq!(all, left);
    let mut none = sample("a");
    none.extend(vec![]);
    assert_eq!(none, sample("a"));
}

#[test]
fn absorb_merges_in_place() {
    let mut install = sample("a");
    install.absorb(sample("b"));
    assert_eq!(install, sample("a").merge(sample("b")));
}

#[test]
fn lock_deploys_in_a_fixed_order() {
    let mut builder = LockBuilder::new(inst());
    builder.extend(vec![sample("a"), sample("b")]);
    let lock = builder.build("/inst/assets").unwrap();
    assert_eq!(lock.cfg, inst());
    assert_eq!(lock.java_main_class, "a.Main");
    assert_eq!(lock.java_flag, vec!["-Da", "-Db"]);
    assert_eq!(lock.mc_flag, vec!["--a", "--b", "--assetIndex", "a-assets"]);
    let expected = vec![
        Deployment { path: "libraries/0".into(), artifact: art("a-lib1") },
        Deployment { path: "libraries/1".into(), artifact: art("a-lib2") },
        Deployment { path: "libraries/2".into(), artifact: art("b-lib1") },
        Deployment { path: "libraries/3".into(), artifact: art("b-lib2") },
        Deployment { path: "natives/a.so".into(), artifact: art("a-native") },
        Deployment { path: "natives/shared.so".into(), artifact: art("a-shared") },
        Deployment { path: "natives/b.so".into(), artifact: art("b-native") },
        Deployment { path: "minecraft.jar".into(), artifact: art("a-jar") },
        Deployment { path: "mods/0".into(), artifact: art("a-mod") },
        Deployment { path: "mods/1".into(), artifact: art("b-mod") },
        Deployment { path: "/inst/assets/indexes/a-assets.json".into(), artifact: art("a-assets") },
    ];
    assert_eq!(lock.deploy, expected);
}

#[test]
fn lock_numbers_past_nine() {
    let mut install = sample("a");
    install.java_lib = (0..12).map(|i| art(&format!("lib{i}"))).collect();
    let mut builder = LockBuilder::new(inst());
    builder.extend(vec![install]);
    let lock = builder.build("assets").unwrap();
    assert_eq!(lock.deploy[9].path, "libraries/9");
    assert_eq!(lock.deploy[10].path, "libraries/10");
    assert_eq!(lock.deploy[11].path, "libraries/11");
    assert_eq!(lock.deploy[11].artifact, art("lib11"));
}

#[test]
fn lock_is_a_function_of_the_install() {
    let build = || {
        let mut builder = LockBuilder::new(inst());
        builder.extend(vec![sample("x"), sample("y")]);
        builder.build("assets").unwrap()
    };
    assert_eq!(build(), build());
}

#[test]
fn lock_needs_jar_asset_index_and_main_class() {
    let build = |install: Install| {
        let mut builder = LockBuilder::new(inst());
        builder.extend(vec![install]);
        builder.build("assets")
    };
    assert_eq!(LockBuilder::new(inst()).build("assets"), Err(LockError::MissingJar));
    let mut install = sample("a");
    install.mc_jar = None;
    install.mc_asset_index = None;
    assert_eq!(build(install), Err(LockError::MissingJar));
    let mut install = sample("a");
    install.mc_asset_index = None;
    install.java_main_class = None;
    assert_eq!(build(install), Err(LockError::MissingAssetIndex));
    let mut install = sample("a");
    install.java_main_class = None;
    assert_eq!(build(install), Err(LockError::MissingMainClass));
}

#[test]
fn deployment_from_pair() {
    let d = Deployment::from(("mods/0".to_string(), art("m")));
    assert_eq!(d.path, "mods/0");
    assert_eq!(d.artifact, art("m"));
    assert_eq!(d.clone(), d);
}

#[test]
fn minecraft_config_defaults() {
    let mc = MCConfig::new();
    assert!(mc.game_flags.is_empty());
    assert_eq!(mc.width, 854);
    assert_eq!(mc.height, 480);
    assert_eq!(DEFAULT_WIDTH, 854);
    assert_eq!(DEFAULT_HEIGHT, 480);
}

#[test]
fn user_game_flags() {
    let flags = inst().user.game_flags();
    assert_eq!(
        flags,
        vec![
            "--username",
            "steve",
            "--uuid",
            "0000",
            "--accessToken",
            "SECRET-REDACTED",
            "--userType",
            "msa"
        ]
    );
    assert_eq!(UserType::MSA.to_string(), "msa");
}
