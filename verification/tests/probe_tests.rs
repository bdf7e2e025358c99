use firedbg_rust_debugger::probe::{probe_layout, ProbeErr};
use std::alloc::Layout;

/// What the probe program prints for a type with this layout.
fn printed(layout: Layout) -> String {
    format!("size = {}\nalign = {}\n", layout.size(), layout.align())
}

#[test]
fn test_probe() {
    let (size, align) = probe_layout(&printed(Layout::new::<&str>())).unwrap();
    assert_eq!(Layout::from_size_align(size, align).unwrap(), Layout::new::<&str>());
    let (size, align) = probe_layout(&printed(Layout::new::<(i32, i32)>())).unwrap();
    assert_eq!(Layout::from_size_align(size, align).unwrap(), Layout::new::<(i32, i32)>());
}

#[test]
fn probe_errors() {
    assert_eq!(probe_layout(""), Err(ProbeErr::MissingLine));
    assert_eq!(probe_layout("size = 8\n"), Err(ProbeErr::MissingLine));
    assert_eq!(probe_layout("size: 8\nalign = 8"), Err(ProbeErr::MissingAttr));
    assert_eq!(probe_layout("align = 8\nsize = 8"), Err(ProbeErr::UnexpectedAttr));
    assert_eq!(probe_layout("size = x\nalign = 8"), Err(ProbeErr::NotANumber));
    assert_eq!(probe_layout("size = 8\nalign = 3"), Err(ProbeErr::InvalidLayout));
    assert_eq!(probe_layout("size = 8\r\nalign = 4\r\n"), Ok((8, 4)));
    assert_eq!(probe_layout("size = 0\nalign = 1"), Ok((0, 1)));
}
