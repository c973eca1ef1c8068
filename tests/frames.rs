use obj_viewer::font::Font;
use obj_viewer::geometry::Texture;
use obj_viewer::overlay::{GlyphQuad, TextOverlay, PRIMITIVE_RESTART};
use obj_viewer::render::{AcquireOutcome, FrameAction, PresentOutcome, Renderer, Token};
use obj_viewer::ring::UniformRing;

fn font() -> Font {
    Font { length: 256, width: 8, height: 16, data: vec![0; 256 * 16 * 8] }
}

#[test]
fn marking_stale_twice_rebuilds_once() {
    let mut r = Renderer::new(3);
    r.swapchain_outdated();
    r.swapchain_outdated();
    let first = r.begin_frame();
    assert!(first.rebuild);
    let second = r.begin_frame();
    assert!(!second.rebuild);
}

#[test]
fn out_of_date_acquisition_abandons_frame() {
    let mut r = Renderer::new(3);
    let start = r.begin_frame();
    assert!(!start.rebuild);
    assert_eq!(r.on_acquire(start, AcquireOutcome::OutOfDate), FrameAction::Abandon);
    assert_eq!(r.uniforms.readers, vec![None]);
    assert!(r.stale);
    assert_eq!(r.predecessor, Token::Idle);
    assert!(r.begin_frame().rebuild);
}

#[test]
fn suboptimal_acquisition_draws_then_rebuilds() {
    let mut r = Renderer::new(2);
    let start = r.begin_frame();
    let action = r.on_acquire(start, AcquireOutcome::Acquired { image: 1, suboptimal: true });
    assert_eq!(action, FrameAction::Draw { image: 1, wait_on: Token::Idle, overlay: false });
    assert_eq!(r.on_present(start.id, PresentOutcome::Presented), Token::Frame { id: start.id });
    let next = r.begin_frame();
    assert!(next.rebuild);
    let action = r.on_acquire(next, AcquireOutcome::Acquired { image: 0, suboptimal: false });
    assert_eq!(
        action,
        FrameAction::Draw { image: 0, wait_on: Token::Frame { id: start.id }, overlay: false }
    );
}

#[test]
fn image_without_framebuffer_or_failed_acquire_abandons() {
    let mut r = Renderer::new(2);
    let a = r.begin_frame();
    assert_eq!(r.on_acquire(a, AcquireOutcome::Acquired { image: 2, suboptimal: false }), FrameAction::Abandon);
    let b = r.begin_frame();
    assert_eq!(r.on_acquire(b, AcquireOutcome::Failed), FrameAction::Abandon);
    assert!(!r.stale);
}

#[test]
fn failed_present_falls_back_to_idle() {
    let mut r = Renderer::new(2);
    let a = r.begin_frame();
    r.on_acquire(a, AcquireOutcome::Acquired { image: 0, suboptimal: false });
    assert_eq!(r.on_present(a.id, PresentOutcome::Presented), Token::Frame { id: 1 });
    let b = r.begin_frame();
    r.on_acquire(b, AcquireOutcome::Acquired { image: 1, suboptimal: false });
    assert_eq!(r.on_present(b.id, PresentOutcome::Failed), Token::Idle);
    assert!(!r.stale);
    let c = r.begin_frame();
    r.on_acquire(c, AcquireOutcome::Acquired { image: 0, suboptimal: false });
    assert_eq!(r.on_present(c.id, PresentOutcome::OutOfDate), Token::Idle);
    assert!(r.stale);
    r.swapchain_rebuilt(4);
    assert_eq!(r.images, 4);
}

#[test]
fn uniform_slots_wait_for_retirement() {
    // A fake GPU timeline: each frame has finished once the next one has started.
    let mut r = Renderer::new(3);
    let mut last_reader: Vec<Option<u64>> = Vec::new();
    for _ in 0..10 {
        let start = r.begin_frame();
        let slot = start.uniform_slot;
        if slot < last_reader.len() {
            if let Some(prev) = last_reader[slot] {
                let retired = r.uniforms.retired.expect("a slot is reused only after retirement");
                assert!(prev <= retired);
            }
            last_reader[slot] = Some(start.id);
        } else {
            assert_eq!(slot, last_reader.len());
            last_reader.push(Some(start.id));
        }
        if start.id >= 2 {
            r.retire_finished(start.id - 1);
        }
    }
    assert_eq!(last_reader.len(), 2);
}

#[test]
fn ring_picks_first_free_slot_or_grows() {
    let mut ring = UniformRing::new();
    assert_eq!(ring.next_slot(1), 0);
    assert_eq!(ring.next_slot(2), 1);
    ring.retire(1);
    assert_eq!(ring.retired, Some(1));
    assert_eq!(ring.next_slot(3), 0);
    assert_eq!(ring.next_slot(4), 2);
    ring.retire(0);
    assert_eq!(ring.retired, Some(1));
    assert_eq!(ring.readers, vec![Some(3), Some(2), Some(4)]);
}

#[test]
fn overlay_text_builds_quads_and_restart_indices() {
    let mut o = TextOverlay::new(&font());
    o.add_text(10, 4, 2, &['A', 'b']);
    assert_eq!(
        o.quads,
        vec![
            GlyphQuad { x1: 10, x2: 26, y1: 4, y2: 36, code: 65 },
            GlyphQuad { x1: 26, x2: 42, y1: 4, y2: 36, code: 98 },
        ]
    );
    assert_eq!(o.indices, vec![0, 1, 2, 3, PRIMITIVE_RESTART, 4, 5, 6, 7, PRIMITIVE_RESTART]);
    assert!(!o.has_text());
    let (quads, indices) = o.load_text();
    assert_eq!(quads.len(), 2);
    assert_eq!(indices.len(), 10);
    assert!(o.quads.is_empty());
    assert!(o.indices.is_empty());
    assert!(o.has_text());
    assert_eq!(o.atlas_size(), (8, 256 * 16));
}

#[test]
fn overlay_is_drawn_once_text_is_loaded() {
    let mut r = Renderer::new(2).with_overlay(&font());
    let start = r.begin_frame();
    let action = r.on_acquire(start, AcquireOutcome::Acquired { image: 0, suboptimal: false });
    assert_eq!(action, FrameAction::Draw { image: 0, wait_on: Token::Idle, overlay: false });
    if let Some(o) = r.overlay_mut() {
        o.add_text(0, 0, 1, &['6', '0']);
        o.load_text();
    }
    let action = r.on_acquire(start, AcquireOutcome::Acquired { image: 0, suboptimal: false });
    assert_eq!(action, FrameAction::Draw { image: 0, wait_on: Token::Idle, overlay: true });
}

#[test]
fn missing_texture_becomes_white_pixel() {
    let t = Texture::or_placeholder(None);
    assert_eq!((t.width, t.height), (1, 1));
    assert_eq!(t.pixels, vec![255, 255, 255, 255]);
    let given = Texture { width: 1, height: 1, pixels: vec![1, 2, 3, 4] };
    assert_eq!(Texture::or_placeholder(Some(given)).pixels, vec![1, 2, 3, 4]);
}

#[test]
fn glyph_band_addresses_rows_by_code() {
    let o = TextOverlay::new(&font());
    assert_eq!(o.glyph_band(0), (0, 16));
    assert_eq!(o.glyph_band(65), (65 * 16, 66 * 16));
}

#[test]
fn repeated_abandoned_frames_reuse_one_slot() {
    let mut r = Renderer::new(2);
    for _ in 0..5 {
        let start = r.begin_frame();
        assert_eq!(start.uniform_slot, 0);
        assert_eq!(r.on_acquire(start, AcquireOutcome::OutOfDate), FrameAction::Abandon);
    }
    assert_eq!(r.uniforms.readers, vec![None]);
}

#[test]
fn release_only_frees_the_frames_own_slot() {
    let mut ring = UniformRing::new();
    ring.next_slot(1);
    ring.release(0, 2);
    assert_eq!(ring.readers, vec![Some(1)]);
    ring.release(3, 1);
    assert_eq!(ring.readers, vec![Some(1)]);
    ring.release(0, 1);
    assert_eq!(ring.readers, vec![None]);
}
