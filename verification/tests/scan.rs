use ctf_writeups::scan::folder_included;
use ctf_writeups::scan::is_asset_name;

#[test]
fn version_control_folders_stay_out() {
    assert!(!folder_included(".git"));
    assert!(!folder_included("repo.git"));
    assert!(!folder_included(".github"));
    assert!(folder_included("ctf-test"));
    assert!(folder_included("git"));
    assert!(folder_included(""));
}

#[test]
fn the_descriptor_and_markdown_files_are_no_assets() {
    assert!(!is_asset_name("meta.toml"));
    assert!(!is_asset_name("example.md"));
    assert!(!is_asset_name("archive.tar.md"));
}

#[test]
fn other_files_are_assets() {
    assert!(is_asset_name("flag.png"));
    assert!(is_asset_name("noextension"));
    assert!(is_asset_name("script.mdx"));
    assert!(is_asset_name("UPPER.MD"));
    // a lone leading dot opens a hidden file, not an extension
    assert!(is_asset_name(".md"));
    assert!(is_asset_name("meta.toml.bak"));
}
