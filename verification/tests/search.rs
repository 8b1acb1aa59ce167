use uetool::utility::search::default_dir;
use uetool::utility::search::file_with_extension;
use uetool::utility::search::ListedFile;
use uetool::utility::search::SearchOptions;

fn listing(paths: &[&str]) -> Vec<ListedFile> {
    paths
        .iter()
        .map(|path| ListedFile {
            path: path.to_string(),
            extension: std::path::Path::new(path)
                .extension()
                .map(|extension| extension.to_string_lossy().to_string()),
        })
        .collect()
}

#[test]
fn default_dir_without_drive_letters_is_the_root() {
    assert_eq!(default_dir(None), "/");
}

#[test]
fn default_dir_lists_the_drives_of_the_mask() {
    assert_eq!(default_dir(Some(0)), "");
    assert_eq!(default_dir(Some(0b1)), " A:\\");
    assert_eq!(default_dir(Some(0b100)), " C:\\");
    assert_eq!(default_dir(Some(0b1101)), " A:\\ C:\\ D:\\");
    assert_eq!(default_dir(Some(1 << 25)), " Z:\\");
}

#[test]
fn default_dir_ignores_bits_beyond_the_alphabet() {
    assert_eq!(default_dir(Some(1 << 26)), "");
    assert_eq!(default_dir(Some(u32::MAX)).len(), 26 * 4);
    assert!(default_dir(Some(u32::MAX)).starts_with(" A:\\ B:\\"));
    assert!(default_dir(Some(u32::MAX)).ends_with(" Y:\\ Z:\\"));
}

#[test]
fn file_with_extension_takes_the_first_in_the_listing() {
    let entries = listing(&["/p/readme.md", "/p/Game.uproject", "/p/Other.uproject"]);
    assert_eq!(file_with_extension(&entries, "uproject"), Some("/p/Game.uproject".to_string()));
    assert_eq!(file_with_extension(&entries, "md"), Some("/p/readme.md".to_string()));
}

#[test]
fn file_with_extension_finds_nothing_where_none_has_it() {
    let entries = listing(&["/p/readme.md", "/p/uproject", "/p/.uproject", "/p/a.uproject.bak"]);
    assert_eq!(file_with_extension(&entries, "uproject"), None);
    assert_eq!(file_with_extension(&listing(&[]), "uproject"), None);
}

#[test]
fn file_with_extension_compares_the_whole_extension() {
    let entries = listing(&["/p/a.project", "/p/b.uproject", "/p/c.PROJECT"]);
    assert_eq!(file_with_extension(&entries, "project"), Some("/p/a.project".to_string()));
    assert_eq!(file_with_extension(&entries, "PROJECT"), Some("/p/c.PROJECT".to_string()));
    assert_eq!(file_with_extension(&entries, ""), None);
    let dotted = listing(&["/p/ends."]);
    assert_eq!(file_with_extension(&dotted, ""), Some("/p/ends.".to_string()));
}

#[test]
fn search_options_are_plain_values() {
    let options = SearchOptions {
        max_depth: 4,
        project_directory: "/p".to_string(),
        ue_major_version: 5,
        ue_minor_version: 6,
        ue_patch_version: 1,
        search_dir: vec!["/".to_string()],
    };
    assert_eq!(options.clone(), options);
}
