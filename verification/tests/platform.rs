use rashamon::platform::{
    linux_data_dir, linux_downloads_dir, FileSystemBackend, KamelotBackend, KamelotPlatform,
    NetworkBackend, RendererFileSystem, RendererNetwork,
};

#[test]
fn linux_data_dir_prefers_xdg() {
    assert_eq!(linux_data_dir(Some("/x"), Some("/home/u")), "/x/rashamon-arc");
    assert_eq!(linux_data_dir(Some("/x/"), None), "/x/rashamon-arc");
    assert_eq!(linux_data_dir(Some(""), None), "rashamon-arc");
    assert_eq!(linux_data_dir(None, Some("/home/u")), "/home/u/.local/share/rashamon-arc");
    assert_eq!(linux_data_dir(None, None), "./rashamon-arc");
}

#[test]
fn linux_downloads_dir_under_home() {
    assert_eq!(linux_downloads_dir(Some("/home/u")), "/home/u/Downloads/RashamonArc");
    assert_eq!(linux_downloads_dir(None), "./Downloads/RashamonArc");
}

#[test]
fn kamelot_roots_are_fixed() {
    let b = KamelotBackend::new();
    assert_eq!(b.data_dir(), "/kmfs/rashamon-arc");
    assert_eq!(b.downloads_dir(), "/kmfs/rashamon-arc/downloads");
    assert_eq!(NetworkBackend::name(&b), "kamelot-syscall-network-stub");
    let p = KamelotPlatform;
    assert_eq!(RendererFileSystem::data_dir(&p), "/kmfs/rashamon-arc");
    assert_eq!(RendererNetwork::name(&p), "kamelot-network-syscall-stub");
}
