use secretspec_provider_sops::SopsFileProvider;

#[test]
fn sops_file_provider_constructs_with_path() {
    let p = SopsFileProvider::new("secrets.yaml");
    assert_eq!(p.file(), "secrets.yaml");
}

#[test]
fn sops_file_provider_accepts_borrowed_str() {
    let path = String::from("secrets.bin");
    let p = SopsFileProvider::new(path.as_str());
    assert_eq!(p.file(), "secrets.bin");
}

#[test]
fn provider_is_cloneable() {
    let p = SopsFileProvider::new("secrets.yaml");
    let p2 = p.clone();
    assert_eq!(p.file(), p2.file());
}
