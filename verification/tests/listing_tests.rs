use turbo_delete::listing::{lex_le_exec, sort_entries, strip_separators, FileEntry};

fn row(name: &str, is_dir: bool) -> FileEntry {
    FileEntry {
        name: name.as_bytes().to_vec(),
        path: name.as_bytes().to_vec(),
        is_dir,
        size: if is_dir { None } else { Some(1) },
    }
}

#[test]
fn directories_come_first_then_names_ascend() {
    let rows = vec![
        row("zeta.txt", false),
        row("alpha", true),
        row("beta.txt", false),
        row("delta", true),
    ];
    let sorted = sort_entries(rows);
    let names: Vec<&[u8]> = sorted.iter().map(|e| e.name.as_slice()).collect();
    assert_eq!(
        names,
        vec![
            b"alpha".as_slice(),
            b"delta".as_slice(),
            b"beta.txt".as_slice(),
            b"zeta.txt".as_slice(),
        ]
    );
}

#[test]
fn name_order_is_case_sensitive_bytewise() {
    // uppercase letters sort before lowercase ones, as bytewise comparison has it
    let rows = vec![row("apple", false), row("Banana", false), row("cherry", false)];
    let sorted = sort_entries(rows);
    let names: Vec<&[u8]> = sorted.iter().map(|e| e.name.as_slice()).collect();
    assert_eq!(
        names,
        vec![b"Banana".as_slice(), b"apple".as_slice(), b"cherry".as_slice()]
    );
}

#[test]
fn empty_listing_sorts() {
    let sorted = sort_entries(Vec::new());
    assert!(sorted.is_empty());
}

#[test]
fn lex_order_basics() {
    assert!(lex_le_exec(&b"abc".to_vec(), &b"abd".to_vec()));
    assert!(!lex_le_exec(&b"abd".to_vec(), &b"abc".to_vec()));
    assert!(lex_le_exec(&b"ab".to_vec(), &b"abc".to_vec()));
    assert!(!lex_le_exec(&b"abc".to_vec(), &b"ab".to_vec()));
    assert!(lex_le_exec(&b"same".to_vec(), &b"same".to_vec()));
    assert!(lex_le_exec(&b"".to_vec(), &b"a".to_vec()));
}

#[test]
fn mount_point_loses_separators() {
    assert_eq!(strip_separators(&b"C:\\".to_vec()), b"C:".to_vec());
    assert_eq!(strip_separators(&b"\\\\srv\\share\\".to_vec()), b"srvshare".to_vec());
    assert_eq!(strip_separators(&b"".to_vec()), b"".to_vec());
}
