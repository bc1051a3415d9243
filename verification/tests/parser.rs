//! Parsing of documents, from source text to scene.

use candy::diag::{CandyError, CandyWarn};
use candy::easing::Easing;
use candy::includes::{FileEntry, IncludedFile};
use candy::meta::PrivateMeta;
use candy::number::{Angle, AngleUnit, Length, LengthUnit, Number, Ratio};
use candy::parse::{parse_tyx, Input, Pause, Scene, Verdict, VersionPolicy};
use candy::scene::{check_slides, Action, CounterEventKind, GlobalConfig, Slide};

/// The version of the package that documents import.
fn package_version() -> String {
    PrivateMeta::default().version
}

/// Makes a document import the package in the current version and apply its show rule.
fn with_auto_version(raw: &str) -> String {
    let pkg = format!("@preview/candy:{}", package_version());
    let s = raw.replace("#import \"candy\":", &format!("#import \"{pkg}\":"));
    let s = s.replace("#import \"candy\"\n", &format!("#import \"{pkg}\" as candy\n"));
    inject_candy_show_rule(&s)
}

/// Puts the show rule behind the first import of candy, unless it is there already.
fn inject_candy_show_rule(src: &str) -> String {
    if src.contains("#show: candy") {
        return src.to_string();
    }
    let found = src.lines().find(|l| l.trim_start().starts_with("#import") && l.contains("candy"));
    let Some(import_line) = found else {
        return src.to_string();
    };
    let binds_candy = import_line.contains(" as candy")
        || import_line.trim_end().ends_with('*')
        || import_line.contains(": candy")
        || import_line.contains(", candy");
    let injected = if binds_candy {
        format!("{import_line}\n#show: candy")
    } else {
        let path = import_line.split('"').nth(1).expect("a quoted package path");
        format!("{import_line}\n#import \"{path}\": candy\n#show: candy")
    };
    src.replacen(import_line, &injected, 1)
}

fn cm(n: i64) -> Length {
    Length { value: Number::Double((n as f64).to_bits()), unit: LengthUnit::Cm, negative: false }
}

fn percent(n: i64) -> Ratio {
    Ratio { percent: Number::Double((n as f64).to_bits()) }
}

fn degrees(n: i64) -> Angle {
    Angle { value: Number::Double((n as f64).to_bits()), unit: AngleUnit::Deg }
}

fn input(path: &str, source: &str) -> Input {
    Input {
        path: path.to_string(),
        canon: path.to_string(),
        source: source.to_string(),
        files: Vec::new(),
        config: GlobalConfig { width: cm(16), height: cm(9), ppi: 144, fps: 30 },
        names: Vec::new(),
    }
}

fn policy(ignore: bool) -> VersionPolicy {
    VersionPolicy {
        ignore,
        cli: "0.1.0".to_string(),
        requirements: "^0.1".to_string(),
        verdicts: Vec::new(),
    }
}

/// Parses a document that needs nothing else, with any version accepted.
fn parse(source: &str) -> Result<Scene, CandyError> {
    match parse_tyx(&input("doc.tyx", source), &policy(true)) {
        Ok(s) => Ok(s),
        Err(Pause::Error(e)) => Err(e),
        Err(other) => panic!("unexpected stop: {other:?}"),
    }
}

/// Parses a document that pulls in files of the same directory.
fn parse_with_files(root: &str, files: &[(&str, String)]) -> Result<Scene, CandyError> {
    let content = |name: &str| files.iter().find(|(n, _)| *n == name).map(|(_, c)| c.clone());
    let mut doc = input(root, &content(root).unwrap());
    loop {
        match parse_tyx(&doc, &policy(true)) {
            Ok(s) => return Ok(s),
            Err(Pause::Error(e)) => return Err(e),
            Err(Pause::File { from, rel }) => {
                let file = match content(&rel) {
                    Some(c) => IncludedFile::Read {
                        path: rel.clone(),
                        canon: format!("/dir/{rel}"),
                        content: c,
                    },
                    None => IncludedFile::Unreadable("no such file".to_string()),
                };
                doc.files.push(FileEntry { from, rel, file });
            }
            Err(Pause::Version(v)) => panic!("version {v} not judged"),
        }
    }
}

fn item<'a>(scene: &'a Scene, label: &str) -> &'a str {
    scene.items.get(label).expect("an item").as_str()
}

fn switches(scene: &Scene, label: &str) -> Vec<(u32, String)> {
    let t = scene.content_timeline.get(label).expect("a timeline");
    t.list.iter().map(|s| (s.at_ms, s.body.clone())).collect()
}

const DOT: &str = r#"
#import "candy": *
#mobject("dot", circle(radius: 1cm, fill: blue))
#mobject("dot2", rect(width: 1cm, height: 1cm))
#animate("dot", to: (4cm, 0pt), duration: 30, easing: "linear")
#animate("dot2", scale: 150%, duration: 20)
#pause(duration: 15)
#audio("voice.opus", blocking: false, loop: false, volume: 0.9, slice: none)
"#;

#[test]
fn ast_walk_parses_dot_ast() {
    let src = with_auto_version(DOT);
    let scene = parse(&src).unwrap();
    assert_eq!(scene.slides.len(), 3); // 2 animate + pause
    // play not used here; but dot + dot2 registered
    assert!(scene.items.contains_key("dot"));
    assert!(scene.items.contains_key("dot2"));
    // body captured as raw source, not a string
    assert_eq!(
        item(&scene, "dot"),
        "circle(radius: 1cm, fill: blue)"
    );
    assert_eq!(scene.slides[0].duration_ms, 30);
    assert_eq!(scene.slides[2].duration_ms, 15);
    assert_eq!(scene.audio.len(), 1);
    assert_eq!(scene.audio[0].path, "voice.opus");
    assert_eq!(scene.audio[0].start_ms, 65); // 30 + 20 + 15 (pause)
}

#[test]
fn timing_with_and_delay_resolve_start_ms() {
    let src = with_auto_version(
        r#"
#import "candy": *
#mobject("a", circle(radius: 1cm))
#mobject("b", rect(width: 1cm, height: 1cm))
#mobject("c", text(size: 12pt)[hi])
#animate("a", to: (4cm, 0pt), duration: 1000)
#animate("b", to: (0cm, 4cm), duration: 1000, timing: "with")
#animate("c", to: (1cm, 1cm), duration: 500, timing: "after", delay: 250)
"#,
    );
    let scene = parse(&src).unwrap();
    assert_eq!(scene.slides.len(), 3);
    // a: default `after` → sequential boundary 0.
    assert_eq!(scene.slides[0].start_ms, 0);
    assert_eq!(scene.slides[0].duration_ms, 1000);
    // b: `with` a, no delay → starts at a's start (0), overlapping it.
    assert_eq!(scene.slides[1].start_ms, 0);
    // c: `after` + delay 250 → starts at the latest end (a ends 1000) + 250.
    assert_eq!(scene.slides[2].start_ms, 1250);
}

#[test]
fn mobject_declaration_order_is_preserved() {
    //parallel mobjects must keep their source declaration order. The labels are
    // declared `zeta, alpha, mid` (deliberately NOT alphabetical) so a stray
    // `HashMap`-iteration sort is caught. `owns_labels` drives both the
    // natural top-to-bottom layout and the paint z-order.
    let src = with_auto_version(
        r#"
#import "candy": *
#mobject("zeta", text(size: 20pt)[First])
#mobject("alpha", rect(width: 3cm, height: 1cm))
#mobject("mid", text(size: 14pt)[Third])
"#,
    );
    let scene = parse(&src).unwrap();

    let root = scene.scenes.iter().find(|s| s.id == 0).expect("root scene");
    assert_eq!(
        root.owns_labels,
        vec![
            "zeta".to_string(),
            "alpha".to_string(),
            "mid".to_string()
        ],
        "mobject declaration order was scrambled"
    );
}

#[test]
fn ast_walk_parses_field_access_import() {
    // candy imported as a module, called via candy.mobject(...)
    let src = with_auto_version(
        r#"
#import "candy"
#candy.mobject("box", rect(width: 2cm, height: 2cm, fill: red))
#candy.animate("box", to: (3cm, 2cm), duration: 20)
"#,
    );
    let scene = parse(&src).unwrap();
    assert!(scene.items.contains_key("box"));
    assert_eq!(
        item(&scene, "box"),
        "rect(width: 2cm, height: 2cm, fill: red)"
    );
    assert_eq!(scene.slides.len(), 1);
}

#[test]
fn ast_walk_parses_box() {
    let src = with_auto_version(
        r#"
#import "candy": animate as anim, mobject as mob
#mob("box", rect(width: 2cm, height: 2cm, fill: red))
#anim("box", to: (3cm, 2cm), duration: 20)
#anim("box", scale: 150%, duration: 20)
"#,
    );
    let scene = parse(&src).unwrap();
    assert!(scene.items.contains_key("box"));
    assert_eq!(scene.slides[0].actions.len(), 1); // move
    assert_eq!(scene.slides[1].actions.len(), 1); // scale
}

#[test]
fn ast_walk_parses_play_block() {
    let src = with_auto_version(
        r#"
#import "candy": *
#mobject("a", circle(radius: 1cm))
#play(rect(width: 2cm, height: 1cm, fill: green), duration: 25)
"#,
    );
    let scene = parse(&src).unwrap();
    // one synthetic block label
    let blocks: usize = scene
        .items
        .keys()
        .iter()
            .filter(|l| l.starts_with("__block_"))
        .count();
    assert_eq!(blocks, 1);
    // A `play` block emits two slides: the play window itself, then a 1ms
    // `Hide` slide so sequential `play` steps don't visually overlap.
    assert_eq!(scene.slides.len(), 2);
    assert_eq!(scene.slides[0].duration_ms, 25);
    assert_eq!(scene.slides[1].duration_ms, 1);
    assert!(matches!(
        scene.slides[1].actions.as_slice(),
        [Action::Hide { .. }]
    ));
}

#[test]
fn ast_walk_parses_rotate_and_fadeto() {
    let src = with_auto_version(
        r#"
#import "candy": *
#mobject("sq", rect(width: 2cm, height: 2cm))
#animate("sq", rotate: 90deg, opacity: 30%, duration: 25, easing: "cubic-in-out")
"#,
    );
    let scene = parse(&src).unwrap();
    assert_eq!(scene.slides.len(), 1);
    let actions = &scene.slides[0].actions;
    // rotate + opacity → 2 actions
    assert_eq!(actions.len(), 2);
    let has_rotate = actions
        .iter()
        .any(|a| matches!(a, Action::Rotate { degrees: d, .. } if *d == degrees(90)));
    let has_fadeto = actions
        .iter()
        .any(|a| matches!(a, Action::FadeTo { opacity, .. } if *opacity == percent(30)));
    assert!(has_rotate, "expected Rotate(90) action, got {actions:?}");
    assert!(has_fadeto, "expected FadeTo(0.3) action, got {actions:?}");
    // Easing must propagate to both actions.
    for a in actions {
        let easing = match a {
            Action::Rotate { easing, .. } | Action::FadeTo { easing, .. } => *easing,
            other => panic!("unexpected action {other:?}"),
        };
        assert_eq!(easing, Easing::CubicInOut);
    }
}

#[test]
fn ast_walk_parses_manim_directives() {
    let src = with_auto_version(
        r#"
#import "candy": *
#mobject("dot", circle(radius: 1cm))
#save_state("dot", slot: "home")
#animate("dot", to: (4cm, 0pt), duration: 20)
#restore("dot", slot: "home", duration: 20, easing: "smooth")
#indicate("dot", factor: 120%, duration: 18)
#flash("dot", factor: 180%, duration: 12)
#wiggle("dot", degrees: 12deg, duration: 16)
#disappear("dot")
#appear("dot")
#set_color("dot", color: red, duration: 1)
"#,
    );
    let scene = parse(&src).unwrap();
    assert_eq!(scene.slides.len(), 9, "slides: {:?}", scene.slides);

    // Verify each action variant.
    assert!(
        matches!(scene.slides[0].actions[0], Action::SaveState { ref slot, .. } if slot == "home")
    );
    assert!(matches!(scene.slides[1].actions[0], Action::MoveTo { .. }));
    assert!(
        matches!(scene.slides[2].actions[0], Action::Restore { ref slot, .. } if slot == "home")
    );
    assert!(matches!(
        scene.slides[3].actions[0],
        Action::Indicate { factor, .. } if factor == percent(120)
    ));
    assert!(matches!(
        scene.slides[4].actions[0],
        Action::Flash { factor, .. } if factor == percent(180)
    ));
    assert!(matches!(
        scene.slides[5].actions[0],
        Action::Wiggle { degrees: d, .. } if d == degrees(12)
    ));
    assert!(matches!(scene.slides[6].actions[0], Action::Hide { .. }));
    assert!(matches!(scene.slides[7].actions[0], Action::Show { .. }));
    assert!(
        matches!(scene.slides[8].actions[0], Action::SetColor { ref color, .. } if color == "red")
    );
}

#[test]
fn ast_walk_parses_transform() {
    let src = with_auto_version(
        r#"
#import "candy": *
#mobject("eq", [$a + b = c$])
#transform("eq", to: [$a + b + d = c$], duration: 20, easing: "smooth")
#mobject("box", rect(width: 2cm, height: 2cm))
#transform("box", to: circle(radius: 1.5cm, fill: blue))
"#,
    );
    let scene = parse(&src).unwrap();
    assert_eq!(scene.slides.len(), 2, "slides: {:?}", scene.slides);

    assert_eq!(item(&scene, "eq"), "[$a + b = c$]");
    assert_eq!(
        item(&scene, "box"),
        "rect(width: 2cm, height: 2cm)"
    );

    assert_eq!(item(&scene, "__xf_eq_0"), "[$a + b = c$]");
    assert_eq!(
        item(&scene, "__xf_box_1"),
        "rect(width: 2cm, height: 2cm)"
    );

    assert_eq!(
        switches(&scene, "eq"),
        vec![(1u32, "[$a + b + d = c$]".to_string())]
    );
    assert_eq!(
        switches(&scene, "box"),
        vec![(21u32, "circle(radius: 1.5cm, fill: blue)".to_string())]
    );

    assert!(matches!(
        &scene.slides[0].actions[..],
        [Action::Transform { target, .. }] if target == "eq"
    ));
    assert!(matches!(
        &scene.slides[1].actions[..],
        [Action::Transform { target, .. }] if target == "box"
    ));

    // Inline content (formula) → per-glyph TransformPlan; shape → blob morph.
    assert_eq!(
        scene.transform_plans.len(),
        1,
        "transform_plans: {:?}",
        scene.transform_plans
    );
    assert_eq!(scene.transform_plans[0].target, "eq");
    assert_eq!(scene.transform_plans[0].old_body, "[$a + b = c$]");
    assert_eq!(scene.transform_plans[0].new_body, "[$a + b + d = c$]");
    assert_eq!(
        scene.morph_pairs.len(),
        1,
        "morph_pairs: {:?}",
        scene.morph_pairs
    );
    assert_eq!(scene.morph_pairs[0].to, "box");
}

#[test]
fn nested_scene_is_a_parse_error() {
    let src = with_auto_version(
        r#"
#import "candy": *
#scene(name: "outer")[
  #mobject("a", circle(radius: 1cm))
  #scene(name: "inner")[
#mobject("b", rect(width: 1cm))
  ]
]
"#,
    );
    let res = parse(&src);
    assert!(
        res.is_err(),
        "nested #scene must be rejected, got: {:?}",
        res.ok()
    );
}

#[test]
fn scene_with_removed_args_is_a_parse_error() {
    for (label, args) in [
        ("width", "width: 16cm"),
        ("height", "height: 9cm"),
        ("bg", "bg: white"),
        ("unknown", "frobnicate: 42"),
    ] {
        let src = with_auto_version(&format!(
            r#"
#import "candy": *
#scene({args})[
  #mobject("a", circle(radius: 1cm))
]
"#
        ));
        let res = parse(&src);
        assert!(
            res.is_err(),
            "{label}: #scene({args}) must be rejected, got: {:?}",
            res.ok()
        );
    }
}

#[test]
fn sibling_scenes_are_sequential_and_mutually_exclusive() {
    let src = with_auto_version(
        r#"
#import "candy": *
#set page(width: 16cm, height: 9cm, margin: 0pt)
#scene()[
  #mobject("a", circle(radius: 1cm))
  #pause(duration: 50)
]
#set page(width: 16cm, height: 9cm, margin: 0pt)
#scene()[
  #mobject("b", rect(width: 1cm))
  #pause(duration: 50)
]
"#,
    );
    let scene = parse(&src).unwrap();

    // Scenes are flat and the implicit whole-document scene is dropped as
    // soon as explicit `#scene(...)` calls exist, so exactly the 2 siblings
    // remain.
    assert_eq!(
        scene.scenes.len(),
        2,
        "2 flat siblings, no implicit root: {:?}",
        scene.scenes
    );
    let owner = |label: &str| {
        let found = scene.scenes.iter().find(|s| s.owns_labels.iter().any(|l| l == label));
        found.map(|s| s.id)
    };
    assert_eq!(owner("a"), Some(1), "a → scene 1");
    assert_eq!(owner("b"), Some(2), "b → scene 2");

    let s1 = scene.scenes.iter().find(|s| s.id == 1).unwrap();
    let s2 = scene.scenes.iter().find(|s| s.id == 2).unwrap();
    // Sequential: scene 1 ends exactly where scene 2 begins (no overlap).
    assert_eq!(
        s1.end_ms, s2.start_ms,
        "sibling scenes must not overlap: {:?} {:?}",
        s1, s2
    );
    // During scene 1's window only scene 1 is active (never the root).
    assert_eq!(scene.active_scene_at(10), 1);
    assert_ne!(
        scene.active_scene_at(10),
        0,
        "root must not leak over scene 1"
    );
    // During scene 2's window only scene 2 is active.
    assert_eq!(scene.active_scene_at(60), 2);
    assert_ne!(
        scene.active_scene_at(60),
        0,
        "root must not leak over scene 2"
    );
    // Scene 2 (the last) persists to the document end, not just its content.
    assert_eq!(s2.end_ms, 100, "last scene extends to doc end: {:?}", s2);
}

#[test]
fn field_access_on_ordinary_object_is_not_candy() {
    let src = with_auto_version(
        r#"
#import "candy": *
#let obj = (morph: 1)
#let helper = obj
#helper.morph()   // method-like call on a user object — NOT candy
#helper.reveal("x")
"#,
    );
    let scene = parse(&src).unwrap();
    // No items should be produced by the false-positive calls.
    // The parser auto-inserts a single pause slide for any scene that
    // has content (even if it's just the candy import), so we expect
    // exactly one empty slide.
    assert_eq!(scene.slides.len(), 1, "expected auto-inserted pause slide");
    assert_eq!(scene.slides[0].actions.len(), 0);
    assert!(!scene.items.contains_key("x"));
}

#[test]
fn local_let_shadowing_hides_candy_directive() {
    let src = with_auto_version(
        r#"
#import "candy": *
#let track(n) = n
// Inside this `#{ … }` code block, `track` is the user's function, not candy's
// keyframe `track`. The call below must NOT produce a Track slide.
#{
  #track(5)
}
"#,
    );
    let scene = parse(&src).unwrap();
    // No slides should be produced by the shadowed call.
    // The parser auto-inserts a single pause slide for any scene.
    assert_eq!(scene.slides.len(), 1, "expected auto-inserted pause slide");
    assert_eq!(scene.slides[0].actions.len(), 0);
}

#[test]
fn candy_directive_restored_after_shadow_scope() {
    let src = with_auto_version(
        r#"
#import "candy": *
#{
  #let track(n) = n
  #track(5)   // user's `track` inside the block — not candy
}
#mobject("a", circle(radius: 1cm))
#track("a", ((0, (1cm, 0cm, 1, 1, 0)),), duration: 10)   // real candy track (nested-tuple keys)
"#,
    );
    let scene = parse(&src).unwrap();
    assert_eq!(scene.slides.len(), 1, "slides: {:?}", scene.slides);
    assert!(matches!(scene.slides[0].actions[0], Action::Track { .. }));
}

#[test]
fn no_candy_import_is_e008() {
    let src = r#"
#mobject("a", circle(radius: 1cm, fill: blue))
#animate("a", to: (4cm, 0pt), duration: 30)
"#;
    let err = parse(&src).unwrap_err();
    assert_eq!(err.code(), "E008", "expected E008, got {err:?}");
}

#[test]
fn missing_candy_show_rule_is_e008() {
    // Deliberately bypass `with_auto_version`'s show-rule injection: build
    // the versioned import by hand so the source has the import but no
    // `#show: candy`.
    let v = package_version();
    let src = format!(
        "\n#import \"@preview/candy:{v}\": *\n\
         #mobject(\"a\", circle(radius: 1cm))\n\
         #animate(\"a\", to: (4cm, 0pt), duration: 30)\n"
    );
    let err = parse(&src).unwrap_err();
    assert_eq!(err.code(), "E008", "expected E008, got {err:?}");
    let CandyError::CandyDumpedYou(message, _) = &err else {
        panic!("unexpected error {err:?}");
    };
    assert!(
        message.contains("show rule"),
        "E008 message must name the missing show rule: {message}"
    );
}

#[test]
fn candy_show_rule_with_overrides_global_canvas() {
    let v = package_version();
    let src = format!(
        "\n#import \"@preview/candy:{v}\": *\n\
         #show: candy.with(width: 20cm, height: 10cm, ppi: 96, fps: 60)\n\
         #mobject(\"a\", circle(radius: 1cm))\n\
         #animate(\"a\", to: (4cm, 0pt), duration: 30)\n"
    );
    let scene = parse(&src).unwrap();
    let cfg = scene.artifacts.config;
    assert_eq!(cfg.ppi, 96);
    assert_eq!(cfg.fps, 60);
    let expect = (cm(20), cm(10));
    assert_eq!((cfg.width, cfg.height), expect);
    assert_eq!(scene.page_size, Some(expect));
}

#[test]
fn test_candy_imports_use_auto_fetched_version() {
    let src = with_auto_version(
        r#"
#import "candy": *
#mobject("a", circle(radius: 1cm))
"#,
    );
    let v = package_version();
    assert!(
        src.contains(&format!("@preview/candy:{v}")),
        "test import must use the auto-fetched version `@preview/candy:{v}`: {src}"
    );
    assert!(
        !src.contains("#import \"candy\""),
        "test import must not retain the bare `candy` path: {src}"
    );
}

#[test]
fn markup_supports_slash_comments_natively() {
    let src = with_auto_version(
        r#"
#import "candy": *
= Heading

Some prose with an equation $a + b = c$ and a URL https://example.com.
// a line comment — valid in standard markup mode
#mobject("dot", circle(radius: 1cm, fill: blue))
#animate("dot", to: (4cm, 0pt), duration: 30)
"#,
    );
    let scene = parse(&src).unwrap();
    assert!(scene.items.contains_key("dot"));
}

#[test]
fn duplicate_mobject_same_scope_shadows_later() {
    let src = with_auto_version(
        r#"
#import "candy": *
#mobject("a", circle(radius: 1cm, fill: red))
#mobject("a", rect(width: 2cm, height: 2cm, fill: blue))
"#,
    );
    let scene = parse(&src).unwrap();
    // Later definition wins.
    assert_eq!(
        item(&scene, "a"),
        "rect(width: 2cm, height: 2cm, fill: blue)"
    );
}

#[test]
fn nested_scope_mobject_redefinition_is_not_duplicate() {
    let src = with_auto_version(
        r#"
#import "candy": *
#mobject("a", circle(radius: 1cm, fill: red))
#{
  #mobject("a", rect(width: 2cm, height: 2cm, fill: blue))
}
"#,
    );
    let scene = parse(&src).unwrap();
    // Both declarations parse; the inner (later) body is the surviving one
    // in the global `items` map. The point is no error / no duplicate warn.
    assert_eq!(
        item(&scene, "a"),
        "rect(width: 2cm, height: 2cm, fill: blue)"
    );
}

#[test]
fn duplicate_ecnew_same_scope_shadows_later() {
    let src = with_auto_version(
        r#"
#import "candy": *
#ecnew("k", seed: 1, step: 1)
#ecnew("k", seed: 99, step: 2)
"#,
    );
    let scene = parse(&src).unwrap();
    let same: Vec<&candy::scene::CounterDef> =
        scene.counters.iter().filter(|c| c.name == "k").collect();
    // The duplicate is collapsed: only the later definition survives.
    assert_eq!(same.len(), 1, "duplicate ecnew should shadow to one def");
    assert_eq!(same[0].seed, 99, "later ecnew seed should win");
    assert_eq!(same[0].step, 2);
}

#[test]
fn nested_scope_ecnew_redefinition_is_not_duplicate() {
    let src = with_auto_version(
        r#"
#import "candy": *
#ecnew("k", seed: 1)
#{
  #ecnew("k", seed: 2)
}
"#,
    );
    let scene = parse(&src).unwrap();
    let same: Vec<&candy::scene::CounterDef> =
        scene.counters.iter().filter(|c| c.name == "k").collect();
    assert_eq!(same.len(), 2, "nested ecnew redefinitions both survive");
}

#[test]
fn mobject_without_animation_auto_inserts_pause() {
    let src = with_auto_version(
        r#"
#import "candy": *
#mobject("a", circle(radius: 1cm))
#mobject("b", rect(width: 2cm))
"#,
    );
    let scene = parse(&src).unwrap();
    // Should have exactly one auto-inserted pause slide.
    assert_eq!(scene.slides.len(), 1, "expected auto-inserted pause slide");
    assert_eq!(scene.slides[0].duration_ms, 500);
    assert_eq!(scene.slides[0].actions.len(), 0);
    // Items should be present.
    assert_eq!(scene.items.keys().len(), 2);
}

#[test]
fn pure_typst_markup_auto_inserts_pause() {
    let src = with_auto_version(
        r#"
#import "candy": *
= Hello World
This is plain Typst content with an equation $E = mc^2$.
"#,
    );
    let scene = parse(&src).unwrap();
    // Even pure Typst content gets a slide so it can be rendered.
    assert_eq!(scene.slides.len(), 1, "expected auto-inserted pause slide");
    assert_eq!(scene.slides[0].duration_ms, 500);
}

#[test]
fn subtitles_without_animation_auto_inserts_pause() {
    let src = with_auto_version(
        r#"
#import "candy": *
#subtitle("caption", body: [Hello world], start: 0)
"#,
    );
    let scene = parse(&src).unwrap();
    assert_eq!(scene.slides.len(), 1, "expected auto-inserted pause slide");
    assert_eq!(scene.slides[0].duration_ms, 500);
    assert!(!scene.subtitles.is_empty());
}

#[test]
fn counters_without_animation_auto_inserts_pause() {
    let src = with_auto_version(
        r#"
#import "candy": *
#ecnew("k", seed: 0, step: 1)
"#,
    );
    let scene = parse(&src).unwrap();
    assert_eq!(scene.slides.len(), 1, "expected auto-inserted pause slide");
    assert_eq!(scene.slides[0].duration_ms, 500);
    assert!(!scene.counters.is_empty());
}

#[test]
fn explicit_scene_with_labels_no_slides_auto_inserts_pause() {
    let src = with_auto_version(
        r#"
#import "candy": *
#set page(width: 16cm, height: 9cm, margin: 0pt)
#scene()[
  #mobject("a", circle(radius: 1cm))
]
"#,
    );
    let scene = parse(&src).unwrap();
    assert_eq!(scene.slides.len(), 1, "expected auto-inserted pause slide");
    assert_eq!(
        scene.scenes.len(),
        1,
        "one explicit scene, no implicit root"
    );
    // The explicit scene should own label "a".
    let s = scene.scenes.iter().find(|s| s.id == 1).unwrap();
    assert!(!s.owns_labels.is_empty());
}

#[test]
fn mobject_with_spaced_label_is_e007() {
    let src = with_auto_version(
        "#import \"candy\": *\n#mobject(\"my object\", circle(radius: 1cm))\n",
    );
    let err = parse(&src).unwrap_err();
    assert_eq!(err.code(), "E007", "expected E007, got {err:?}");
}

#[test]
fn mobject_with_leading_digit_label_is_e007() {
    let src =
        with_auto_version("#import \"candy\": *\n#mobject(\"1st\", circle(radius: 1cm))\n");
    let err = parse(&src).unwrap_err();
    assert_eq!(err.code(), "E007", "expected E007, got {err:?}");
}

#[test]
fn scene_with_invalid_name_is_e007() {
    let src = with_auto_version(
        "#import \"candy\": *\n#scene(name: \"bad name\", body: { #mobject(\"a\", circle()) })\n",
    );
    let err = parse(&src).unwrap_err();
    assert_eq!(err.code(), "E007", "expected E007, got {err:?}");
}

#[test]
fn valid_unicode_mobject_name_is_accepted() {
    let src = with_auto_version(
        "#import \"candy\": *\n#mobject(\"café_名前-x\", circle(radius: 1cm))\n",
    );
    let scene = parse(&src).expect("Unicode identifier keys must be accepted");
    assert!(scene.items.contains_key("café_名前-x"));
}

#[test]
fn circular_include_on_same_chain_is_rejected() {
    let a = with_auto_version(
        "#include \"candy_test_cycle_b.tyx\"\n#mobject(\"a\", circle(radius: 1cm))\n",
    );
    let b = "#include \"candy_test_cycle_a.tyx\"\n#mobject(\"b\", circle(radius: 1cm))\n";
    let mut doc = input("candy_test_cycle_a.tyx", &a);
    doc.canon = "/dir/candy_test_cycle_a.tyx".to_string();
    let read = |name: &str, content: &str| IncludedFile::Read {
        path: name.to_string(),
        canon: format!("/dir/{name}"),
        content: content.to_string(),
    };
    doc.files.push(FileEntry {
        from: "candy_test_cycle_a.tyx".to_string(),
        rel: "candy_test_cycle_b.tyx".to_string(),
        file: read("candy_test_cycle_b.tyx", b),
    });
    doc.files.push(FileEntry {
        from: "candy_test_cycle_b.tyx".to_string(),
        rel: "candy_test_cycle_a.tyx".to_string(),
        file: read("candy_test_cycle_a.tyx", &a),
    });
    match parse_tyx(&doc, &policy(true)) {
        Err(Pause::Error(CandyError::Parse(msg, Some(loc)))) => {
            assert!(
                msg.contains("circular include"),
                "expected circular-include error, got: {msg}"
            );
            assert_eq!(
                loc.path, "candy_test_cycle_b.tyx",
                "error should point at the file whose `#include` closes the cycle (b → a)"
            );
            assert!(
                loc.line_text.contains("include"),
                "error should point at the `#include` line, got: {:?}",
                loc.line_text
            );
            assert_eq!(loc.line, 1);
            assert_eq!(loc.include_trace.len(), 1);
            assert_eq!(loc.include_trace[0].path, "candy_test_cycle_a.tyx");
        }
        other => panic!("expected CandyError::Parse with a location, got {other:?}"),
    }
}

#[test]
fn diamond_include_on_different_branches_is_allowed() {
    let scene = parse_with_files(
        "candy_test_diamond_root.tyx",
        &[
            (
                "candy_test_diamond_root.tyx",
                with_auto_version(
                    "#import \"candy\": *\n#include \"candy_test_diamond_a.tyx\"\n#include \"candy_test_diamond_b.tyx\"\n#mobject(\"r\", circle(radius: 1cm))\n",
                ),
            ),
            (
                "candy_test_diamond_a.tyx",
                "#include \"candy_test_diamond_x.tyx\"\n#mobject(\"a\", circle(radius: 1cm))\n".to_string(),
            ),
            (
                "candy_test_diamond_b.tyx",
                "#include \"candy_test_diamond_x.tyx\"\n#mobject(\"b\", circle(radius: 1cm))\n".to_string(),
            ),
            (
                "candy_test_diamond_x.tyx",
                "#mobject(\"x\", circle(radius: 1cm))\n".to_string(),
            ),
        ],
    )
    .expect("diamond includes must be allowed");
    assert!(scene.items.contains_key("r"));
    assert!(scene.items.contains_key("a"));
    assert!(scene.items.contains_key("b"));
    assert!(scene.items.contains_key("x"));
    let owned = &scene.scenes[0].owns_labels;
    assert_eq!(owned, &["x", "a", "b", "r"]);
    let text = scene.artifacts.source.text.as_str();
    assert_eq!(scene.artifacts.source.regions.len(), 4);
    for r in &scene.artifacts.source.regions {
        assert_eq!(&text[r.start..r.end], r.text);
    }
}

// ---------------------------------------------------------------- versions

/// Judges every version that is asked for.
fn parse_judged(source: &str, ignore: bool, compatible: bool) -> Result<Scene, CandyError> {
    let mut p = policy(ignore);
    loop {
        match parse_tyx(&input("doc.tyx", source), &p) {
            Ok(s) => return Ok(s),
            Err(Pause::Error(e)) => return Err(e),
            Err(Pause::Version(version)) => p.verdicts.push(Verdict { version, compatible }),
            Err(other) => panic!("unexpected stop: {other:?}"),
        }
    }
}

#[test]
fn versions_are_judged_unless_ignored() {
    let src = "#import \"@preview/candy:9.9.9\": *\n#show: candy\n#pause()\n";
    match parse_tyx(&input("doc.tyx", src), &policy(false)) {
        Err(Pause::Version(v)) => assert_eq!(v, "9.9.9"),
        other => panic!("unexpected result {other:?}"),
    }
    assert!(parse_judged(src, false, true).is_ok());
    assert!(parse_judged(src, true, false).is_ok());
    match parse_judged(src, false, false) {
        Err(CandyError::CandyDumpedYou(m, _)) => {
            assert!(m.contains("9.9.9"), "{m}");
            assert!(m.contains("^0.1"), "{m}");
        }
        other => panic!("unexpected result {other:?}"),
    }
}

// ---------------------------------------------------------------- errors and warnings

fn candy(body: &str) -> String {
    with_auto_version(&format!("#import \"candy\": *\n{body}"))
}

#[test]
fn unknown_counter_is_e006() {
    let e = parse(&candy("#pause()\n#kcpause(\"nope\")\n")).unwrap_err();
    assert_eq!(e.code(), "E006");
    match e {
        CandyError::UnknownKey(what, name, _) => {
            assert_eq!((what.as_str(), name.as_str()), ("kcnew", "nope"));
        }
        other => panic!("unexpected error {other:?}"),
    }
}

#[test]
fn unknown_scene_is_e006() {
    let src = candy("#scene(name: \"one\")[#pause(duration: 10) #scene-switch(target: \"two\")]\n");
    match parse(&src).unwrap_err() {
        CandyError::UnknownKey(what, name, _) => {
            assert_eq!((what.as_str(), name.as_str()), ("scene", "two"));
        }
        other => panic!("unexpected error {other:?}"),
    }
}

#[test]
fn missing_file_is_a_parse_error() {
    let doc = with_auto_version("#import \"candy\": *\n#include \"gone.tyx\"\n");
    match parse_with_files("main.tyx", &[("main.tyx", doc)]).unwrap_err() {
        CandyError::Parse(m, None) => {
            assert_eq!(m, "cannot include \"gone.tyx\": no such file");
        }
        other => panic!("unexpected error {other:?}"),
    }
}

#[test]
fn errors_in_an_included_file_are_found_there() {
    let main = with_auto_version("#import \"candy\": *\n\n#include \"part.tyx\"\n");
    let part = "\n#mobject(\"two words\", circle())\n".to_string();
    let files = [("main.tyx", main.clone()), ("part.tyx", part)];
    match parse_with_files("main.tyx", &files).unwrap_err() {
        CandyError::InvalidKey { value, not_ident, loc: Some(loc), .. } => {
            assert_eq!((value.as_str(), not_ident), ("two words", true));
            assert_eq!((loc.path.as_str(), loc.line), ("part.tyx", 2));
            assert_eq!(loc.line_text, "#mobject(\"two words\", circle())");
            assert_eq!(loc.include_trace.len(), 1);
            assert_eq!(loc.include_trace[0].path, "main.tyx");
            let at = main.lines().position(|l| l.contains("include")).unwrap();
            assert_eq!(loc.include_trace[0].line as usize, at + 1);
        }
        other => panic!("unexpected error {other:?}"),
    }
}

#[test]
fn warnings_are_handed_out() {
    let scene = parse(&candy(
        "#mobject(\"a\", circle())\n\
         #mobject(\"a\", rect())\n\
         #animate(\"a\", dx: 1, easing: \"bogus\")\n\
         #reveal(\"a\")\n\
         #kcnew(\"k\")\n\
         #kcpush(\"k\", 1)\n\
         #kcpush(\"k\", 2)\n",
    ))
    .unwrap();
    let mut seen = [false; 4];
    for w in &scene.warnings {
        match w {
            CandyWarn::DuplicateName(what, name, _) => {
                assert_eq!((what.as_str(), name.as_str()), ("mobject", "a"));
                seen[0] = true;
            }
            CandyWarn::UnknownEasing(m, _) => {
                assert_eq!(m, "'bogus' for @a");
                seen[1] = true;
            }
            CandyWarn::RevealFallback(m, _) => {
                assert_eq!(m, "@a");
                seen[2] = true;
            }
            CandyWarn::KeyframeOffsetClamp(m, _) => {
                assert!(m.contains("kcpush 'k'"), "{m}");
                seen[3] = true;
            }
            other => panic!("unexpected warning {other:?}"),
        }
    }
    assert_eq!(seen, [true; 4], "{:?}", scene.warnings);
}

// ---------------------------------------------------------------- timelines

#[test]
fn keyframes_stand_in_order() {
    let scene = parse(&candy(
        "#kcnew(\"k\", seed: 7)\n\
         #pause(duration: 100)\n\
         #kcpush(\"k\", 9, offset: 60, easing: \"linear\")\n\
         #kcpush(\"k\", 3, offset: 20)\n\
         #kcpush(\"k\", 5)\n\
         #kcpush(\"k\", 4, offset: 0)\n\
         #kcpause(\"k\")\n\
         #kcdestroy(\"k\")\n",
    ))
    .unwrap();
    let def = &scene.kcdefs[0];
    assert_eq!((def.name.as_str(), def.seed), ("k", 7));
    let times: Vec<(u32, i64)> = def.keyframes.iter().map(|k| (k.at_ms, k.value)).collect();
    assert_eq!(times, vec![(100, 5), (101, 4), (120, 3), (160, 9)]);
    assert_eq!(def.keyframes[3].easing, Easing::Linear);
    let kinds: Vec<CounterEventKind> = scene.kc_events.iter().map(|e| e.kind).collect();
    assert_eq!(kinds, vec![CounterEventKind::Pause, CounterEventKind::Destroy]);
    assert!(scene.kc_events.iter().all(|e| e.at_ms == 100));
}

#[test]
fn a_switch_leaves_scenes_out() {
    let scene = parse(&candy(
        "#scene(name: \"one\")[\n#mobject(\"a\", circle())\n#pause(duration: 100)\n\
         #scene-switch(target: \"three\")\n]\n\
         #scene(name: \"two\")[\n#pause(duration: 50)\n]\n\
         #scene(name: \"three\")[\n#mobject(\"b\", circle())\n#pause(duration: 30)\n]\n",
    ))
    .unwrap();
    let played: u32 = scene.slides.iter().map(|s| s.duration_ms).sum();
    assert_eq!(played, 131, "{:?}", scene.slides);
    let find = |n: &str| scene.scenes.iter().find(|s| s.name.as_deref() == Some(n)).unwrap();
    assert_eq!((find("one").start_ms, find("one").end_ms), (0, 101));
    assert_eq!((find("two").start_ms, find("two").end_ms), (u32::MAX, u32::MAX));
    assert_eq!((find("three").start_ms, find("three").end_ms), (151, 181));
    assert_eq!(scene.active_scene_at(50), find("one").id);
    assert_eq!(scene.active_scene_at(160), find("three").id);
}

#[test]
fn a_reveal_goes_through_its_text() {
    let scene = parse(&candy(
        "#mobject(\"t\", \"one two\")\n#reveal(\"t\", duration: 100)\n",
    ))
    .unwrap();
    let steps = switches(&scene, "t");
    let times: Vec<u32> = steps.iter().map(|s| s.0).collect();
    assert!(times.windows(2).all(|w| w[0] <= w[1]), "{steps:?}");
    assert!(steps.last().unwrap().1.contains("one two"), "{steps:?}");
}

#[test]
fn slides_lie_within_the_document() {
    let scene = parse(&candy(
        "#mobject(\"a\", circle())\n#mobject(\"b\", \"text\")\n\
         #animate(\"a\", dx: 3, duration: 100)\n\
         #animate(\"b\", dy: 3, duration: 300, timing: \"with\", delay: 50)\n\
         #blink(\"a\", blinks: 2, duration: 40)\n\
         #spiral-in(\"a\")\n\
         #fade-transform(\"a\", \"b\")\n\
         #transform(\"b\", $x^2$)\n",
    ))
    .unwrap();
    let end = scene.scenes.iter().map(|s| s.end_ms).max().unwrap();
    for s in &scene.slides {
        assert!(s.start_ms + s.duration_ms <= end + 1, "{s:?} {end}");
    }
    assert!(!scene.content_timeline.get("b").unwrap().list.is_empty());
}

#[test]
fn one_scene_holds_a_document_without_scenes() {
    let scene = parse(&candy("#pause(duration: 20)\n")).unwrap();
    assert_eq!(scene.scenes.len(), 1);
    assert_eq!(scene.scenes[0].id, 0);
    let scene = parse(&candy("#scene()[#pause(duration: 20)]\n")).unwrap();
    assert_eq!(scene.scenes.len(), 1);
    assert_eq!(scene.scenes[0].id, 1);
}

#[test]
fn a_document_without_files_is_kept_as_it_is() {
    let src = candy("#mobject(\"a\", circle())\n// \u{e9}nd\n");
    let scene = parse(&src).unwrap();
    let x = &scene.artifacts.source;
    assert_eq!(x.text, src);
    assert_eq!(x.regions.len(), 0);
    let at = scene.artifacts.mobject_body.get("a").unwrap();
    assert_eq!(&src[at.start..at.end], "circle()");
}

#[test]
fn the_first_error_is_reported() {
    let src = candy("#mobject(\"one thing\", circle())\n#mobject(\"2\", circle())\n");
    match parse(&src).unwrap_err() {
        CandyError::InvalidKey { value, .. } => assert_eq!(value, "one thing"),
        other => panic!("unexpected error {other:?}"),
    }
}

#[test]
fn curves_have_their_defaults() {
    let scene = parse(&candy(
        "#mobject(\"a\", circle())\n\
         #blink(\"a\", blinks: 1, duration: 100)\n\
         #move-along-path(\"a\", ((0cm, 0cm), (1cm, 2cm)))\n\
         #wiggle(\"a\")\n\
         #focus-on(\"a\")\n",
    ))
    .unwrap();
    let easings: Vec<Easing> = scene
        .slides
        .iter()
        .flat_map(|s| &s.actions)
        .map(|a| match a {
            Action::FadeTo { easing, .. }
            | Action::MoveAlongPath { easing, .. }
            | Action::Wiggle { easing, .. }
            | Action::ScaleBy { easing, .. } => *easing,
            other => panic!("unexpected action {other:?}"),
        })
        .collect();
    assert_eq!(
        easings,
        vec![Easing::Linear, Easing::Linear, Easing::Linear, Easing::Wiggle, Easing::Smooth]
    );
    let times: Vec<u32> = scene.slides.iter().map(|s| s.duration_ms).collect();
    assert_eq!(times, vec![50, 50, 500, 500, 300]);
}

#[test]
fn the_module_can_be_imported_under_its_own_name() {
    let v = package_version();
    let own = format!("#import \"@preview/candy:{v}\"\n#show: candy\n#candy.pause(duration: 7)\n");
    let scene = parse(&own).unwrap();
    assert_eq!(scene.slides.len(), 1);
    assert_eq!(scene.slides[0].duration_ms, 7);
    let other =
        format!("#import \"@local/candy:{v}\" as c\n#show: c\n#c.pause(duration: 9)\n#candy.pause()\n");
    let scene = parse(&other).unwrap();
    let times: Vec<u32> = scene.slides.iter().map(|s| s.duration_ms).collect();
    assert_eq!(times, vec![9]);
}

#[test]
fn literals_are_read_as_typst_reads_them() {
    let scene = parse(&candy(
        "#ecnew(\"k\", seed: 0x10, step: 2.6)\n\
         #audio(\"a.opus\", volume: 0.9, slice: (1.5cm, 20mm))\n\
         #pause(duration: 1e2)\n",
    ))
    .unwrap();
    assert_eq!((scene.counters[0].seed, scene.counters[0].step), (16, 3));
    assert_eq!(scene.audio[0].volume, Number::Double(0.9f64.to_bits()));
    let (from, to) = scene.audio[0].slice.unwrap();
    assert_eq!(from.value, Number::Double(1.5f64.to_bits()));
    assert_eq!((to.value, to.unit), (Number::Double(20f64.to_bits()), LengthUnit::Mm));
    assert_eq!(scene.slides[0].duration_ms, 100);
}

#[test]
fn integers_are_read_in_their_base() {
    let seeds = |text: &str| {
        let scene = parse(&candy(&format!("#ecnew(\"k\", seed: {text})\n"))).unwrap();
        scene.counters[0].seed
    };
    assert_eq!(seeds("17"), 17);
    assert_eq!(seeds("0xfF"), 255);
    assert_eq!(seeds("0o17"), 15);
    assert_eq!(seeds("0b101"), 5);
    assert_eq!(seeds("0xfffffffffffffffff"), 0);
}

#[test]
fn every_slide_lasts() {
    let scene = parse(&candy("#pause(duration: 0)\n#pause(duration: 3)\n")).unwrap();
    assert!(!scene.slides.is_empty());
    assert!(scene.slides.iter().all(|s| s.duration_ms >= 1));
    let empty = parse(&candy("")).unwrap();
    assert!(!empty.slides.is_empty());
}

#[test]
fn slides_take_time() {
    let slide = |duration_ms: u32| Slide { start_ms: 0, duration_ms, actions: Vec::new(), loc: None };
    assert!(check_slides(&vec![slide(1), slide(12)]).is_ok());
    assert!(check_slides(&Vec::new()).is_ok());
    let e = check_slides(&vec![slide(5), slide(0)]).unwrap_err();
    assert_eq!(e.code(), "E002");
    match e {
        CandyError::Parse(m, None) => assert_eq!(m, "duration_ms of a slide must be >= 1"),
        other => panic!("unexpected error {other:?}"),
    }
}

#[test]
fn scenes_without_a_name_get_one() {
    let v = package_version();
    let source = format!(
        "#import \"@preview/candy:{v}\": candy, pause, scene as s\n#show: candy\n\
         #s[#pause(duration: 1)]\n#s(name: \"own\")[#pause(duration: 2)]\n#s[#pause(duration: 3)]\n"
    );
    let mut doc = input("doc.tyx", &source);
    let named = |doc: &Input| {
        let scene = parse_tyx(doc, &policy(true)).unwrap();
        scene.scenes.into_iter().map(|s| s.name).collect::<Vec<_>>()
    };
    assert_eq!(named(&doc), vec![None, Some("own".to_string()), None]);
    doc.names = vec!["first".to_string(), "second".to_string()];
    let all = ["first", "own", "second"].map(|n| Some(n.to_string()));
    assert_eq!(named(&doc), all);
}

#[test]
fn names_come_back_at_the_end_of_a_block() {
    let scene = parse(&candy(
        "#{\n  let pause = 1\n  pause(duration: 5)\n}\n#pause(duration: 6)\n",
    ))
    .unwrap();
    let times: Vec<u32> = scene.slides.iter().map(|s| s.duration_ms).collect();
    assert_eq!(times, vec![6]);
}
