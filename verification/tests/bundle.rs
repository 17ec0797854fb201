use nestcli::bundle::{
    archive_path, assemble_bundle_config, bundle_name, ignore_name, is_ignored, root_includes,
};
use nestcli::commands::{handle_bundle, BundleAction, BundleCmd};
use nestcli::config::bundle::{config_name, Build, BundleConfig, IconSet, Metadata, PlatformTarget};

#[test]
fn bundle_subcommands_map_to_their_steps() {
    assert_eq!(handle_bundle(&BundleCmd::Init), BundleAction::WriteConfig);
    assert_eq!(handle_bundle(&BundleCmd::Create), BundleAction::CreateArchive);
}

#[test]
fn fixed_names() {
    assert_eq!(bundle_name(), "bundle.zip");
    assert_eq!(ignore_name(), ".bundleignore");
    assert_eq!(config_name(), "lovebrew.toml");
}

#[test]
fn version_control_entries_are_ignored() {
    for name in [".git", ".gitignore", ".gitattributes", ".gitmodules", ".hg", ".svn",
        "bundle.zip"] {
        assert!(is_ignored(name));
    }
    assert!(!is_ignored("main.lua"));
    assert!(!is_ignored("git"));
    assert!(!is_ignored(""));
}

#[test]
fn root_files_keep_their_path_and_game_files_move() {
    let rel = "main.lua".to_string();
    let game_dir = "src".to_string();
    assert_eq!(archive_path(&rel, true, &game_dir), "main.lua");
    assert_eq!(archive_path(&rel, false, &game_dir), "src/main.lua");
}

#[test]
fn has_target_answers_membership() {
    let build = Build {
        targets: vec![PlatformTarget::Ctr, PlatformTarget::Cafe],
        source: "game".to_string(),
        packaged: false,
    };
    assert!(build.has_target(PlatformTarget::Ctr));
    assert!(!build.has_target(PlatformTarget::Hac));
    assert!(build.has_target(PlatformTarget::Cafe));
}

#[test]
fn set_icon_touches_one_platform() {
    let mut metadata = Metadata {
        name: "Game".to_string(),
        author: "Author".to_string(),
        description: "Desc".to_string(),
        version: "0.1.0".to_string(),
        icons: IconSet::empty(),
    };
    metadata.set_icon(PlatformTarget::Hac, "icon256.jpg");
    assert_eq!(metadata.icons.hac, Some("icon256.jpg".to_string()));
    assert_eq!(metadata.icons.ctr, None);
    assert_eq!(metadata.icons.cafe, None);
    metadata.set_icon(PlatformTarget::Ctr, "icon48.png");
    assert_eq!(metadata.icons.ctr, Some("icon48.png".to_string()));
    assert_eq!(metadata.icons.hac, Some("icon256.jpg".to_string()));
}

#[test]
fn assembled_config_sets_icons_only_for_chosen_targets() {
    let config = assemble_bundle_config(
        "SuperGame",
        "SuperAuthor",
        "SuperDescription",
        "0.1.0",
        vec![PlatformTarget::Ctr, PlatformTarget::Hac],
        "src",
        true,
        "icon48.png",
        "icon256.jpg",
        "icon128.png",
    );
    assert_eq!(config.metadata.name, "SuperGame");
    assert_eq!(config.metadata.author, "SuperAuthor");
    assert_eq!(config.metadata.description, "SuperDescription");
    assert_eq!(config.metadata.version, "0.1.0");
    assert_eq!(config.build.source, "src");
    assert!(config.build.packaged);
    assert_eq!(config.metadata.icons.ctr, Some("icon48.png".to_string()));
    assert_eq!(config.metadata.icons.hac, Some("icon256.jpg".to_string()));
    assert_eq!(config.metadata.icons.cafe, None);
}

fn config_with_icons(ctr: Option<&str>, hac: Option<&str>, cafe: Option<&str>) -> BundleConfig {
    BundleConfig {
        metadata: Metadata {
            name: "Game".to_string(),
            author: "Author".to_string(),
            description: "Desc".to_string(),
            version: "0.1.0".to_string(),
            icons: IconSet {
                ctr: ctr.map(|s| s.to_string()),
                hac: hac.map(|s| s.to_string()),
                cafe: cafe.map(|s| s.to_string()),
            },
        },
        build: Build { targets: Vec::new(), source: "src".to_string(), packaged: false },
    }
}

#[test]
fn root_includes_lists_each_existing_file_once() {
    let config = config_with_icons(Some("icon.png"), Some("icon.png"), Some("other.png"));
    let includes = root_includes(&config, true, true, true, false);
    assert_eq!(
        includes,
        vec![".bundleignore".to_string(), "icon.png".to_string(), "lovebrew.toml".to_string()]
    );
}

#[test]
fn root_includes_come_sorted_by_name() {
    let config = config_with_icons(None, None, None);
    let includes = root_includes(&config, true, false, false, false);
    assert_eq!(includes, vec![".bundleignore".to_string(), "lovebrew.toml".to_string()]);
}

#[test]
fn root_includes_skips_missing_files() {
    let config = config_with_icons(Some("icon.png"), None, Some("other.png"));
    let includes = root_includes(&config, false, false, false, true);
    assert_eq!(includes, vec!["lovebrew.toml".to_string(), "other.png".to_string()]);
}
