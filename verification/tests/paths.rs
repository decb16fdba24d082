use virtua_grotesk_figures::inputs::{font_garden, geist_mono, model_prediction, virtua_sources};
use virtua_grotesk_figures::paths::{join_path, OutputArgError, OutputPaths};

fn args(list: &[&str]) -> Vec<String> {
    list.iter().map(|s| s.to_string()).collect()
}

#[test]
fn join_inserts_one_separator() {
    assert_eq!(join_path("/home/u", "GH"), "/home/u/GH");
    assert_eq!(join_path("/home/u/", "GH"), "/home/u/GH");
    assert_eq!(join_path("", "GH"), "GH");
    assert_eq!(join_path("/home/u", "/etc"), "/etc");
}

#[test]
fn join_agrees_with_std_path() {
    for (base, rel) in [("/a/b", "c/d"), ("/a/b/", "c"), ("a", "/b"), ("", "x"), ("/", "y")] {
        let expected = std::path::Path::new(base).join(rel);
        assert_eq!(join_path(base, rel), expected.to_str().unwrap());
    }
}

#[test]
fn pinned_inputs_live_under_home() {
    assert_eq!(
        geist_mono("/home/eli"),
        "/home/eli/GH/repos/google-fonts/ofl/geistmono/GeistMono[wght].ttf"
    );
    assert_eq!(virtua_sources("/home/eli"), "/home/eli/GH/repos/virtua-grotesk/sources");
    assert_eq!(font_garden("/home/eli"), "/home/eli/GH/repos/font-garden-lab");
    assert_eq!(
        model_prediction("/home/eli"),
        "/home/eli/GH/repos/font-garden-lab/runs/v08/pred.ufo"
    );
}

#[test]
fn default_output_is_the_site() {
    let out = OutputPaths::from_args(&args(&[]), "/repo/scripts/virtua-grotesk").unwrap();
    assert!(!out.scratch());
    assert_eq!(out.blog("fig.png"), "/repo/src/content/blog/virtua-grotesk/fig.png");
    assert_eq!(out.og("card.png"), "/repo/public/og/card.png");
}

#[test]
fn scratch_flag_selects_the_preview_directory() {
    let out = OutputPaths::from_args(&args(&["--scratch"]), "/repo/scripts/virtua-grotesk").unwrap();
    assert!(out.scratch());
    assert_eq!(
        out.blog("fig.png"),
        "/repo/scripts/virtua-grotesk/build/preview/blog/fig.png"
    );
    assert_eq!(out.og("card.png"), "/repo/scripts/virtua-grotesk/build/preview/og/card.png");
}

#[test]
fn last_flag_wins() {
    let out = OutputPaths::from_args(&args(&["--preview", "--publish"]), "/r/s/v").unwrap();
    assert!(!out.scratch());
    let out = OutputPaths::from_args(&args(&["--site", "--scratch"]), "/r/s/v").unwrap();
    assert!(out.scratch());
}

#[test]
fn unknown_argument_is_reported() {
    match OutputPaths::from_args(&args(&["--site", "--bogus", "--what"]), "/r/s/v") {
        Err(OutputArgError::UnknownArgument(a)) => assert_eq!(a, "--bogus"),
        _ => panic!("expected an unknown-argument error"),
    }
}

#[test]
fn manifest_without_grandparent_is_refused() {
    assert!(matches!(
        OutputPaths::from_args(&args(&[]), "/"),
        Err(OutputArgError::NoRepoRoot)
    ));
    assert!(matches!(
        OutputPaths::from_args(&args(&[]), "single"),
        Err(OutputArgError::NoRepoRoot)
    ));
}
