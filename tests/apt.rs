use pbs_store::apt::{get_changelog_url, AptError};

#[test]
fn debian_changelog_urls() {
    let url = get_changelog_url(
        "libc6",
        "/var/lib/apt/lists/deb.debian.org_debian_dists_bullseye_main_binary-amd64_Packages",
        "glibc",
        "2.31-13",
        "2.31-13+deb11u3",
        "Debian",
        "main",
    );
    assert_eq!(url.unwrap(), "https://metadata.ftp-master.debian.org/changelogs/main/g/glibc/glibc_2.31-13+deb11u3_changelog");
    let url = get_changelog_url("libzstd1", "", "libzstd", "1.4.8", "1:1.4.8+dfsg-2.1", "Debian", "main");
    assert_eq!(url.unwrap(), "https://metadata.ftp-master.debian.org/changelogs/main/libz/libzstd/libzstd_1.4.8+dfsg-2.1_changelog");
    assert_eq!(get_changelog_url("x", "", "", "1", "1", "Debian", "main"), Err(AptError::NoPrefix));
    assert_eq!(get_changelog_url("x", "", "lib", "1", "1", "Debian", "main"), Err(AptError::NoPrefix));
}

#[test]
fn proxmox_changelog_urls() {
    let url = get_changelog_url(
        "proxmox-backup-server",
        "/var/lib/apt/lists/download.proxmox.com_debian_pbs_dists_bullseye_pbs-no-subscription_binary-amd64_Packages",
        "proxmox-backup",
        "2:2.1.5-1",
        "2.1.5-1",
        "Proxmox",
        "pbs-no-subscription",
    );
    assert_eq!(
        url.unwrap(),
        "http://download.proxmox.com/debian/pbs/dists/bullseye/pbs-no-subscription/binary-amd64/proxmox-backup-server_2.1.5-1.changelog"
    );
    assert_eq!(get_changelog_url("p", "/lists/nounderscore", "p", "1", "1", "Proxmox", "c"), Err(AptError::BadFilename));
    assert_eq!(get_changelog_url("p", "no-slash_x_Packages", "p", "1", "1", "Proxmox", "c"), Err(AptError::BadFilename));
    assert_eq!(get_changelog_url("p", "", "p", "1", "1", "", "c"), Err(AptError::NoOrigin));
    assert_eq!(get_changelog_url("p", "", "p", "1", "1", "Ubuntu", "c"), Err(AptError::UnknownOrigin));
}
