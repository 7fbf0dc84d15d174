use cerberus_agent::covers::{cover_options, CoverCandidate};

fn cand(path: &str, name: &str) -> CoverCandidate {
    CoverCandidate { path: path.into(), file_name: name.into() }
}

#[test]
fn cover_picker_list() {
    let found = vec![
        cand("/m/Album Covers/zeta.PNG", "zeta.PNG"),
        cand("/m/Album Covers/Alpha.jpg", "Alpha.jpg"),
        cand("/m/Album Covers/notes.txt", "notes.txt"),
        cand("/m/beta.gif", "beta.gif"),
        cand("/m/alpha.jpeg", "alpha.jpeg"),
        cand("/m/beta.gif", "beta.gif"),
        cand("/m/art.webp", "art.webp"),
    ];
    let opts = cover_options(found);
    let got: Vec<(&str, &str)> = opts.iter().map(|o| (o.name.as_str(), o.path.as_str())).collect();
    assert_eq!(
        got,
        vec![
            ("Alpha", "/m/Album Covers/Alpha.jpg"),
            ("alpha", "/m/alpha.jpeg"),
            ("beta", "/m/beta.gif"),
            ("zeta", "/m/Album Covers/zeta.PNG"),
        ]
    );
}
