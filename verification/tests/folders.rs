use mailward::config::{FileConfig, FoldersConfig, DefaultsConfig, ImapConfig};
use mailward::folders::{discover_scan_folders, find_trash, folder_from_parts, is_utf7_decodable, Folder, FolderAttribute};
use mailward::run::{cleanup_target, inspect_target, inspectable_folder_names, scan_folders, trash_folder, Refusal};
use utf7_imap::decode_utf7_imap;

fn folder(name: &str, selectable: bool, special: &[&str]) -> Folder {
    Folder {
        name: name.to_string(),
        display_name: decode_utf7_imap(name.to_string()),
        selectable,
        special_use: special.iter().map(|s| s.to_string()).collect(),
    }
}

fn folders_config() -> FoldersConfig {
    FoldersConfig {
        scan: None,
        skip_special_use: vec!["\\Sent".into(), "\\Drafts".into(), "\\Trash".into()],
        skip_names: vec!["outbox".into(), "notes".into()],
        ignore: vec!["Archive/Old".into()],
        confidential: vec!["Archive/Banking".into()],
    }
}

fn file_config(folders: FoldersConfig) -> FileConfig {
    FileConfig {
        folders,
        defaults: DefaultsConfig { folder: "INBOX".into(), inspect_limit: 30, cleanup_limit: 500 },
        imap: ImapConfig { trash_fallback: "Deleted".into(), body_preview_chars: 2000 },
    }
}

fn listed() -> Vec<Folder> {
    vec![
        folder("INBOX", true, &[]),
        folder("Junk", true, &["\\Junk"]),
        folder("Sent", true, &["\\Sent"]),             // skip: special-use
        folder("Deleted", true, &["\\Trash"]),         // skip: special-use
        folder("Notes", true, &[]),                    // skip: name
        folder("[Gmail]", false, &["\\NoSelect"]),     // skip: not selectable
        folder("Archive/Old", true, &[]),              // skip: ignore
        folder("Archive/Banking", true, &[]),          // skip: confidential
        folder("Archive/GitHub", true, &[]),           // keep
    ]
}

#[test]
fn discovery_applies_all_exclusions() {
    let config = folders_config();
    let listed = listed();
    let scanned = discover_scan_folders(&config, &listed);
    let names: Vec<&str> = scanned.iter().map(|f| f.name.as_str()).collect();
    assert_eq!(names, vec!["INBOX", "Junk", "Archive/GitHub"]);
}

#[test]
fn confidential_excludes_non_ascii_folder_via_decoded_name() {
    // IMAP reports the folder in modified UTF-7 ("ä" → "&AOQ-"); config lists UTF-8.
    let listed = vec![folder("Archive/Reisepl&AOQ-ne", true, &[])];
    assert_eq!(listed[0].display_name, "Archive/Reisepläne");

    let mut config = folders_config();
    config.confidential = vec!["Archive/Reisepläne".into()];
    assert!(discover_scan_folders(&config, &listed).is_empty());
}

#[test]
fn find_trash_uses_special_use() {
    let listed = vec![folder("INBOX", true, &[]), folder("Deleted Items", true, &["\\Trash"])];
    assert_eq!(find_trash(&listed).as_deref(), Some("Deleted Items"));
    assert_eq!(find_trash(&[folder("INBOX", true, &[])]), None);
}

#[test]
fn find_trash_ignores_ascii_case_and_takes_the_first() {
    let listed = vec![folder("Bin", true, &["\\TRASH"]), folder("Trash", true, &["\\Trash"])];
    assert_eq!(find_trash(&listed).as_deref(), Some("Bin"));
}

#[test]
fn skip_special_use_ignores_ascii_case() {
    let config = folders_config();
    let listed = vec![folder("Outgoing", true, &["\\SENT"]), folder("INBOX", true, &[])];
    let names: Vec<String> = discover_scan_folders(&config, &listed).into_iter().map(|f| f.name).collect();
    assert_eq!(names, vec!["INBOX".to_string()]);
}

#[test]
fn explicit_scan_list_matches_display_or_raw_name_minus_protected() {
    let mut config = folders_config();
    config.scan = Some(vec!["Archive/Reisepläne".into(), "Archive/Old".into(), "Archive/Banking".into(), "Sent".into()]);
    let mut all = listed();
    all.push(folder("Archive/Reisepl&AOQ-ne", true, &[]));
    let names: Vec<String> = scan_folders(&file_config(config), &all).into_iter().map(|f| f.name).collect();
    // Ignored and confidential folders never, even when named; a named special-use folder is opt-in.
    assert_eq!(names, vec!["Sent".to_string(), "Archive/Reisepl&AOQ-ne".to_string()]);
}

#[test]
fn without_scan_list_the_run_discovers() {
    let names: Vec<String> = scan_folders(&file_config(folders_config()), &listed()).into_iter().map(|f| f.name).collect();
    assert_eq!(names, vec!["INBOX".to_string(), "Junk".to_string(), "Archive/GitHub".to_string()]);
}

#[test]
fn inspection_offers_every_selectable_folder_but_protected_ones() {
    let names = inspectable_folder_names(&folders_config(), &listed());
    assert_eq!(
        names,
        vec!["INBOX", "Junk", "Sent", "Deleted", "Notes", "Archive/GitHub"].into_iter().map(String::from).collect::<Vec<_>>()
    );
}

#[test]
fn inspect_target_resolves_and_refuses() {
    let config = folders_config();
    let mut all = listed();
    all.push(folder("Archive/Reisepl&AOQ-ne", true, &[]));
    assert_eq!(
        inspect_target(&config, &all, "Archive/Reisepläne"),
        Ok(("Archive/Reisepl&AOQ-ne".to_string(), "Archive/Reisepläne".to_string()))
    );
    assert_eq!(inspect_target(&config, &all, "Junk"), Ok(("Junk".to_string(), "Junk".to_string())));
    assert_eq!(inspect_target(&config, &all, "Nope"), Err(Refusal::UnknownFolder("Nope".to_string())));
    assert_eq!(
        inspect_target(&config, &all, "Archive/Banking"),
        Err(Refusal::FolderNotInspectable("Archive/Banking".to_string()))
    );
    assert_eq!(inspect_target(&config, &all, "Archive/Old"), Err(Refusal::FolderNotInspectable("Archive/Old".to_string())));
}

#[test]
fn folder_from_listing_decodes_and_collects_flags() {
    assert!(is_utf7_decodable("Archive/Reisepl&AOQ-ne"));
    let f = folder_from_parts(
        "Archive/Reisepl&AOQ-ne".to_string(),
        vec![FolderAttribute::Trash, FolderAttribute::Extension("\\\\Important".to_string()), FolderAttribute::Other],
    );
    assert_eq!(f.display_name, "Archive/Reisepläne");
    assert!(f.selectable);
    assert_eq!(f.special_use, vec!["\\Trash".to_string(), "\\Important".to_string()]);
    let g = folder_from_parts("[Gmail]".to_string(), vec![FolderAttribute::NoSelect]);
    assert!(!g.selectable);
    assert!(g.special_use.is_empty());
}

#[test]
fn utf7_decodability_is_checked_before_decoding() {
    assert!(is_utf7_decodable("INBOX"));
    assert!(is_utf7_decodable("a&-b"));
    assert!(!is_utf7_decodable("bad&*-"));
}

#[test]
fn utf7_runs_may_carry_base64_padding() {
    assert!(is_utf7_decodable("a&AA==-b"));
    assert!(is_utf7_decodable("Archive/Reisepl&AOQ=-ne"));
    let f = folder_from_parts("Archive/Reisepl&AOQ=-ne".to_string(), vec![]);
    assert_eq!(f.display_name, "Archive/Reisepläne");
    assert!(!is_utf7_decodable("&AA===-"));
    assert!(!is_utf7_decodable("&A=-"));
}

#[test]
fn cleanup_never_targets_a_protected_folder() {
    let config = folders_config();
    assert_eq!(cleanup_target(&config, "INBOX"), Ok("INBOX".to_string()));
    assert_eq!(cleanup_target(&config, "Archive/Banking"), Err(Refusal::FolderNotCleanable("Archive/Banking".to_string())));
    assert_eq!(cleanup_target(&config, "Archive/Old"), Err(Refusal::FolderNotCleanable("Archive/Old".to_string())));
}

#[test]
fn trash_falls_back_to_the_configured_folder() {
    assert_eq!(trash_folder(&listed(), "Bin"), "Deleted");
    assert_eq!(trash_folder(&[folder("INBOX", true, &[])], "Bin"), "Bin");
}
