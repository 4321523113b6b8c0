use age::engine::EngineState;
use age::error::{AgeError, ErrorSource, RendererError};
use age::font::{find_kerning, CharSet, Kerning, ParsedFont};
use age::renderer::{align_to, AddressMode, FilterMode, SamplerInfo, TextureFormat, TextureInfo};

#[test]
fn age_error_message_and_source() {
    let e = AgeError::new("boom");
    assert_eq!(e.to_string(), "boom");
    assert!(e.source().is_none());
    let e = e.with_source(ErrorSource::Other(String::from("cause")));
    assert_eq!(e.to_string(), "boom");
    assert!(e.source().is_some());
}

#[test]
fn renderer_error_becomes_age_error() {
    let r = RendererError::new("gpu lost").with_source(ErrorSource::Other(String::from("x")));
    assert_eq!(r.to_string(), "gpu lost");
    let e: AgeError = r.into();
    assert_eq!(e.to_string(), "a renderer error occurred");
    match e.source() {
        Some(ErrorSource::Renderer(inner)) => assert_eq!(inner.to_string(), "gpu lost"),
        _ => panic!("the renderer error is the source"),
    }
}

#[test]
fn charset_ranges() {
    let c = CharSet::new(32..127);
    assert_eq!((c.from, c.to), (32, 127));
    let a = CharSet::ascii();
    assert_eq!((a.from, a.to), (0, 128));
}

#[test]
fn font_from_garbage_is_an_error() {
    let e = ParsedFont::from_bytes(&[0, 1, 2, 3]).err().unwrap();
    assert!(!e.to_string().is_empty());
    assert!(e.source().is_none());
}

#[test]
fn align_to_rounds_up() {
    assert_eq!(align_to(0, 4), 0);
    assert_eq!(align_to(1, 4), 4);
    assert_eq!(align_to(4, 4), 4);
    assert_eq!(align_to(13, 8), 16);
    assert_eq!(align_to(7, 1), 7);
}

#[test]
fn renderer_defaults() {
    let t = TextureInfo::default();
    assert_eq!((t.width, t.height, t.sample_count, t.renderable), (1, 1, 1, false));
    assert_eq!(t.format, TextureFormat::Bgra8Unorm);
    assert!(t.label.is_none());
    let s = SamplerInfo::default();
    assert_eq!(s.label, Some("default"));
    assert_eq!(s.address_mode_u, AddressMode::ClampToEdge);
    assert_eq!(s.min_filter, FilterMode::Nearest);
}

#[test]
fn engine_state_start_and_exit() {
    let mut e = EngineState::new();
    assert!(!e.started());
    assert!(!e.should_exit());
    let _key = e.on_start();
    assert!(e.started());
    e.exit();
    assert!(e.should_exit());
}

#[test]
fn fan_indices_of_a_pentagon() {
    assert_eq!(age::mesh::fan_indices(5), vec![0, 1, 2, 0, 2, 3, 0, 3, 4]);
    assert_eq!(age::mesh::fan_indices(2), Vec::<u16>::new());
}

#[test]
fn outline_indices_wrap_around() {
    assert_eq!(
        age::mesh::outline_indices(2),
        vec![0, 1, 2, 2, 1, 3, 2, 3, 0, 0, 3, 1]
    );
    assert_eq!(age::mesh::outline_indices(0), Vec::<u16>::new());
}

#[test]
fn kerning_lookup_by_pair() {
    let ks = [
        Kerning { a: 'A', b: 'V', value: -2 },
        Kerning { a: 'A', b: 'W', value: -1 },
        Kerning { a: 'T', b: 'a', value: -3 },
        Kerning { a: 'V', b: 'A', value: -2 },
        Kerning { a: 'W', b: 'o', value: 4 },
    ];
    assert_eq!(find_kerning(&ks, 'A', 'V'), Some(-2));
    assert_eq!(find_kerning(&ks, 'A', 'W'), Some(-1));
    assert_eq!(find_kerning(&ks, 'T', 'a'), Some(-3));
    assert_eq!(find_kerning(&ks, 'W', 'o'), Some(4));
    assert_eq!(find_kerning(&ks, 'T', 'b'), None);
    assert_eq!(find_kerning(&ks, 'z', 'z'), None);
    assert_eq!(find_kerning::<i32>(&[], 'a', 'b'), None);
}
