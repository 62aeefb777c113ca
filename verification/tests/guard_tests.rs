use turbo_delete::guard::{bytes_eq, ends_with, normalize, validate, SafetyViolation};

fn v(s: &str) -> Vec<u8> {
    s.as_bytes().to_vec()
}

const SYS: &str = "C:\\Windows";

#[test]
fn drive_root_c_rejected() {
    let r = validate(&v("C:\\"), &v(SYS));
    assert_eq!(r, Err(SafetyViolation::DriveRoot));
}

#[test]
fn drive_root_d_rejected() {
    let r = validate(&v("D:\\"), &v(SYS));
    assert_eq!(r, Err(SafetyViolation::DriveRoot));
}

#[test]
fn drive_root_lowercase_rejected() {
    let r = validate(&v("z:\\"), &v(SYS));
    assert_eq!(r, Err(SafetyViolation::DriveRoot));
}

#[test]
fn deep_path_ending_in_drive_root_pattern_rejected() {
    // the rule is a suffix match, as the engine applies it
    assert_eq!(validate(&v("C:\\odd\\x:\\"), &v(SYS)), Err(SafetyViolation::DriveRoot));
}

#[test]
fn share_root_rejected() {
    assert_eq!(validate(&v("\\\\srv\\share"), &v(SYS)), Err(SafetyViolation::DriveRoot));
    assert_eq!(validate(&v("//srv/share"), &v(SYS)), Err(SafetyViolation::DriveRoot));
    assert_eq!(validate(&v("\\\\srv\\share\\"), &v(SYS)), Err(SafetyViolation::DriveRoot));
    assert_eq!(validate(&v("\\\\srv"), &v(SYS)), Err(SafetyViolation::DriveRoot));
}

#[test]
fn device_root_rejected() {
    assert_eq!(validate(&v("\\\\.\\X"), &v(SYS)), Err(SafetyViolation::DriveRoot));
    assert_eq!(validate(&v("\\\\?\\C:\\"), &v(SYS)), Err(SafetyViolation::DriveRoot));
}

#[test]
fn below_share_root_accepted() {
    assert_eq!(validate(&v("\\\\srv\\share\\x"), &v(SYS)), Ok(()));
    assert_eq!(validate(&v("\\\\srv\\share\\old\\tree"), &v(SYS)), Ok(()));
}

#[test]
fn forward_separator_root_rejected() {
    assert_eq!(validate(&v("C:/"), &v(SYS)), Err(SafetyViolation::DriveRoot));
    assert_eq!(validate(&v("c:/"), &v(SYS)), Err(SafetyViolation::DriveRoot));
    assert_eq!(validate(&v("C://"), &v(SYS)), Err(SafetyViolation::DriveRoot));
}

#[test]
fn doubled_separator_root_rejected() {
    assert_eq!(validate(&v("C:\\\\"), &v(SYS)), Err(SafetyViolation::DriveRoot));
    assert_eq!(validate(&v("//"), &v(SYS)), Err(SafetyViolation::DriveRoot));
    assert_eq!(validate(&v("\\\\"), &v(SYS)), Err(SafetyViolation::DriveRoot));
}

#[test]
fn parentless_paths_rejected() {
    assert_eq!(validate(&v(""), &v(SYS)), Err(SafetyViolation::DriveRoot));
    assert_eq!(validate(&v("/"), &v(SYS)), Err(SafetyViolation::DriveRoot));
    assert_eq!(validate(&v("\\"), &v(SYS)), Err(SafetyViolation::DriveRoot));
    assert_eq!(validate(&v("C:"), &v(SYS)), Err(SafetyViolation::DriveRoot));
}

#[test]
fn drive_root_message() {
    let r = validate(&v("C:\\"), &v(SYS)).unwrap_err();
    assert_eq!(
        r.message(),
        "SAFETY ALERT: Cannot delete a drive root using Turbo Delete."
    );
}

#[test]
fn system_root_rejected() {
    let r = validate(&v("C:\\Windows"), &v(SYS));
    assert_eq!(r, Err(SafetyViolation::SystemRoot));
}

#[test]
fn system_root_message() {
    let r = validate(&v("C:\\Windows"), &v(SYS)).unwrap_err();
    assert_eq!(
        r.message(),
        "SAFETY ALERT: Cannot delete the active Windows System directory."
    );
}

#[test]
fn system_root_case_insensitive() {
    let r = validate(&v("c:\\WINDOWS"), &v(SYS));
    assert_eq!(r, Err(SafetyViolation::SystemRoot));
}

#[test]
fn system_root_separator_normalized() {
    let r = validate(&v("C:/Windows/"), &v(SYS));
    assert_eq!(r, Err(SafetyViolation::SystemRoot));
}

#[test]
fn system_root_from_override() {
    // the installation root is whatever the environment supplies
    let r = validate(&v("D:\\WinNT"), &v("d:/winnt/"));
    assert_eq!(r, Err(SafetyViolation::SystemRoot));
}

#[test]
fn users_folder_rejected() {
    let r = validate(&v("C:\\Users"), &v(SYS));
    assert_eq!(r, Err(SafetyViolation::ProtectedFolder));
}

#[test]
fn users_folder_case_and_separator_rejected() {
    let r = validate(&v("d:/USERS/"), &v(SYS));
    assert_eq!(r, Err(SafetyViolation::ProtectedFolder));
}

#[test]
fn program_files_rejected() {
    let r = validate(&v("C:\\Program Files"), &v(SYS));
    assert_eq!(r, Err(SafetyViolation::ProtectedFolder));
}

#[test]
fn program_files_x86_rejected() {
    let r = validate(&v("C:\\Program Files (x86)"), &v(SYS));
    assert_eq!(r, Err(SafetyViolation::ProtectedFolder));
}

#[test]
fn protected_folder_message() {
    let r = validate(&v("C:\\Users"), &v(SYS)).unwrap_err();
    assert_eq!(r.message(), "SAFETY ALERT: Cannot delete core system folders.");
}

#[test]
fn ordinary_target_accepted() {
    assert_eq!(validate(&v("C:\\Temp\\big-tree"), &v(SYS)), Ok(()));
}

#[test]
fn nested_under_protected_accepted() {
    // only the containers themselves are protected, not what lies in them
    assert_eq!(validate(&v("C:\\Users\\someone\\old"), &v(SYS)), Ok(()));
    assert_eq!(validate(&v("C:\\Windows\\Temp"), &v(SYS)), Ok(()));
}

#[test]
fn similar_name_accepted() {
    assert_eq!(validate(&v("C:\\Windows2"), &v(SYS)), Ok(()));
    assert_eq!(validate(&v("C:\\MyUsers"), &v(SYS)), Ok(()));
}

#[test]
fn normalize_folds_case_separators_and_trailing() {
    assert_eq!(normalize(&v("C:/Foo\\Bar\\")), v("c:\\foo\\bar"));
    assert_eq!(normalize(&v("A//B//")), v("a\\\\b"));
    assert_eq!(normalize(&v("")), v(""));
    assert_eq!(normalize(&v("\\\\\\")), v(""));
}

#[test]
fn ends_with_and_bytes_eq() {
    assert!(ends_with(&v("c:\\users"), &v(":\\users")));
    assert!(!ends_with(&v("users"), &v(":\\users")));
    assert!(!ends_with(&v("c:\\user"), &v(":\\users")));
    assert!(bytes_eq(&v("abc"), &v("abc")));
    assert!(!bytes_eq(&v("abc"), &v("abd")));
    assert!(!bytes_eq(&v("abc"), &v("ab")));
}
