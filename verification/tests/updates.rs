use lumi_workbench::json::Json;
use lumi_workbench::updates::{update_info, version_newer, UpdateInfo};

fn info(current: &str, release: &str) -> UpdateInfo {
    update_info(current.to_string(), &Json::parse(release).unwrap())
}

#[test]
fn versions_compare_by_number() {
    assert!(version_newer("1.10", "1.9"));
    assert!(!version_newer("1.9", "1.10"));
    assert!(version_newer("v2.0.0", "1.9.9"));
    assert!(version_newer("1.0.1", "1.0"));
    assert!(!version_newer("1.0", "1.0.0"));
    assert!(!version_newer("1.0.0", "1.0"));
    assert!(!version_newer("1.2.3", "v1.2.3"));
    assert!(!version_newer("", ""));
}

#[test]
fn pieces_that_are_no_numbers_count_as_zero() {
    assert!(!version_newer("1.beta", "1.0"));
    assert!(version_newer("1.1", "1.beta"));
    assert!(!version_newer("1.18446744073709551616", "1.1"));
    assert!(version_newer("1.18446744073709551615", "1.1"));
    assert!(version_newer("1.+2", "1.1"));
    assert!(!version_newer("1.-2", "1.1"));
}

#[test]
fn the_order_of_versions() {
    let all = ["0.9", "1.0", "1.0.1", "1.2", "1.10", "2"];
    for (i, a) in all.iter().enumerate() {
        for (j, b) in all.iter().enumerate() {
            assert_eq!(version_newer(a, b), i > j, "{a} {b}");
        }
    }
}

#[test]
fn an_update() {
    let u = info(
        "1.0.0",
        "{\"tag_name\":\"v1.1.0\",\"html_url\":\"h\",\"body\":\"n\",\"assets\":[\
         {\"name\":\"src.zip\",\"browser_download_url\":\"z\"},\
         {\"name\":\"setup.msi\",\"browser_download_url\":\"m\"},\
         {\"name\":\"setup.exe\",\"browser_download_url\":\"e\"}]}",
    );
    assert!(u.has_update);
    assert_eq!(u.current_version, "1.0.0");
    assert_eq!(u.latest_version, "1.1.0");
    assert_eq!(u.html_url, "h");
    assert_eq!(u.notes, "n");
    assert_eq!(u.download_url, "m");
    assert_eq!(u.file_name, "setup.msi");
}

#[test]
fn an_installer_without_an_address() {
    let u = info("1", "{\"tag_name\":\"2\",\"assets\":[{\"name\":\"a.exe\"},{\"name\":\"b.exe\",\"browser_download_url\":\"b\"}]}");
    assert_eq!(u.file_name, "a.exe");
    assert_eq!(u.download_url, "");
}

#[test]
fn no_update() {
    let u = info("1.0.0", "{}");
    assert!(!u.has_update);
    assert_eq!(u.latest_version, "");
    assert_eq!(u.download_url, "");
    assert_eq!(u.file_name, "");
    assert!(!info("1.0.0", "{\"tag_name\":\"v1.0.0\"}").has_update);
    assert!(!info("1.0.0", "{\"tag_name\":\"v\"}").has_update);
    assert!(!info("1.0.0", "{\"tag_name\":5}").has_update);
    assert_eq!(info("1", "{\"tag_name\":\"2\",\"assets\":{}}").file_name, "");
    assert_eq!(info("1", "{\"tag_name\":\"2\",\"assets\":[5,{\"name\":\"a.zip\"}]}").file_name, "");
}
