use age::rhi::{RendererId, Rhi, RendererResource};

#[test]
fn renderer_ids_are_kind_and_slot() {
    let mut ids = Rhi::new();
    let a = ids.reserve_renderer_id(RendererResource::Backbuffer);
    let b = ids.reserve_renderer_id(RendererResource::Backbuffer);
    assert_eq!(a.split(), (1, 0));
    assert_eq!(b.split(), (1, 1));
    assert_eq!(a.0, (1 << 24) | 0);
}

#[test]
fn released_renderer_id_is_reused_first() {
    let mut ids = Rhi::new();
    let a = ids.reserve_renderer_id(RendererResource::Backbuffer);
    let b = ids.reserve_renderer_id(RendererResource::Backbuffer);
    ids.release_renderer_id(b);
    ids.release_renderer_id(a);
    assert_eq!(ids.reserve_renderer_id(RendererResource::Backbuffer).split(), (1, 1));
    assert_eq!(ids.reserve_renderer_id(RendererResource::Backbuffer).split(), (1, 0));
    assert_eq!(ids.reserve_renderer_id(RendererResource::Backbuffer).split(), (1, 2));
}

#[test]
fn renderer_id_defaults_to_invalid() {
    assert_eq!(RendererId::default(), RendererId::invalid());
    assert_eq!(RendererId::invalid().split(), (0xFF, 0xFFFFFF));
}

#[test]
fn renderer_resource_from_number() {
    assert_eq!(RendererResource::try_from(1u8).ok(), Some(RendererResource::Backbuffer));
    let err = RendererResource::try_from(2u8).err().unwrap();
    assert_eq!(err.to_string(), "invalid renderer resource");
    assert_eq!(RendererResource::Backbuffer.code(), 1);
}
