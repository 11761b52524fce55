use crustcrab::controller::{
    player_actions, Changes, Controller, ControllerEvent, MouseButton, MovementKey, BLOCK_DESTROYED,
    BLOCK_PLACED, MOVED, ROTATED,
};
use crustcrab::inventory::{Inventory, InventoryEvent};
use crustcrab::surface::{Surface, SurfaceEvent};

#[test]
fn controller_last_pressed_opposite_wins() {
    let mut c = Controller::new();
    c.handle(ControllerEvent::KeyPressed(MovementKey::W));
    assert_eq!(c.movement(), (1, 0, 0));
    c.handle(ControllerEvent::KeyPressed(MovementKey::S));
    assert_eq!(c.movement(), (-1, 0, 0));
    c.handle(ControllerEvent::KeyReleased(MovementKey::S));
    assert_eq!(c.movement(), (1, 0, 0));
    c.handle(ControllerEvent::KeyReleased(MovementKey::W));
    assert_eq!(c.movement(), (0, 0, 0));
}

#[test]
fn controller_all_axes() {
    let mut c = Controller::new();
    c.handle(ControllerEvent::KeyPressed(MovementKey::A));
    c.handle(ControllerEvent::KeyPressed(MovementKey::Space));
    assert_eq!(c.movement(), (0, -1, 1));
    c.handle(ControllerEvent::KeyPressed(MovementKey::D));
    c.handle(ControllerEvent::KeyPressed(MovementKey::LShift));
    assert_eq!(c.movement(), (0, 1, -1));
    c.handle(ControllerEvent::KeyReleased(MovementKey::A));
    assert_eq!(c.movement(), (0, 1, -1));
}

#[test]
fn controller_release_of_unheld_key() {
    let mut c = Controller::new();
    c.handle(ControllerEvent::KeyReleased(MovementKey::W));
    assert_eq!(c.movement(), (0, 0, 0));
    assert_eq!(c.apply_updates(false), Changes { bits: 0 });
}

#[test]
fn controller_changes_and_block_actions() {
    let mut c = Controller::new();
    c.handle(ControllerEvent::MousePressed(MouseButton::Left));
    c.handle(ControllerEvent::MousePressed(MouseButton::Right));
    c.handle(ControllerEvent::MousePressed(MouseButton::Other));
    c.handle(ControllerEvent::KeyPressed(MovementKey::D));
    let changes = c.apply_updates(true);
    assert_eq!(changes.bits, ROTATED | MOVED | BLOCK_PLACED);
    let changes = c.apply_updates(false);
    assert_eq!(changes.bits, MOVED | BLOCK_DESTROYED);
    c.handle(ControllerEvent::KeyReleased(MovementKey::D));
    assert_eq!(c.apply_updates(false).bits, 0);
}

#[test]
fn player_actions_decisions() {
    let a = player_actions(Changes { bits: MOVED | BLOCK_PLACED | BLOCK_DESTROYED }, false, false);
    assert!(a.send_position && !a.send_orientation && !a.update_aspect);
    assert!(!a.place_block && !a.destroy_block);
    assert!(a.update_uniform);
    let a = player_actions(Changes { bits: BLOCK_DESTROYED }, true, true);
    assert!(a.destroy_block && !a.place_block && a.update_aspect && a.update_uniform);
    let a = player_actions(Changes { bits: BLOCK_PLACED | ROTATED }, true, false);
    assert!(a.place_block && a.send_orientation && !a.destroy_block);
    let a = player_actions(Changes { bits: 0 }, true, false);
    assert!(!a.update_uniform && !a.place_block && !a.destroy_block);
}

#[test]
fn inventory_selection() {
    let mut inv: Inventory<u8> = Inventory::new();
    assert_eq!(inv.selected_block(), None);
    assert!(inv.take_update());
    assert!(!inv.take_update());
    inv.set_contents(vec![10, 20, 30]);
    assert!(inv.is_updated);
    assert_eq!(inv.selected_block(), Some(10));
    inv.press_digit(3);
    assert_eq!(inv.selected_block(), Some(30));
    assert!(inv.is_updated);
    inv.press_digit(3);
    assert!(!inv.is_updated);
    inv.press_digit(9);
    assert_eq!(inv.index, 8);
    assert_eq!(inv.selected_block(), None);
    inv.press_digit(0);
    assert_eq!(inv.index, 8);
    assert!(inv.set_icon_flat(true));
    assert!(!inv.set_icon_flat(true));
}

#[test]
fn inventory_digit_slots() {
    assert_eq!(Inventory::<u8>::index(1), Some(0));
    assert_eq!(Inventory::<u8>::index(9), Some(8));
    assert_eq!(Inventory::<u8>::index(0), None);
    assert_eq!(Inventory::<u8>::index(10), None);
}

#[test]
fn surface_resize_waits_for_redraw() {
    let mut s = Surface::new(800, 600);
    assert!(s.handle(SurfaceEvent::RedrawRequested { width: 800, height: 600 }));
    assert!(s.is_resized);
    assert!(!s.handle(SurfaceEvent::Other));
    assert!(!s.is_resized);
    assert!(!s.handle(SurfaceEvent::Resized));
    assert_eq!((s.width, s.height), (800, 600));
    assert!(s.handle(SurfaceEvent::RedrawRequested { width: 1024, height: 768 }));
    assert_eq!((s.width, s.height), (1024, 768));
    assert!(!s.handle(SurfaceEvent::RedrawRequested { width: 1, height: 1 }));
}

#[test]
fn surface_ignores_minimized_window() {
    let mut s = Surface::new(800, 600);
    assert!(!s.handle(SurfaceEvent::RedrawRequested { width: 0, height: 600 }));
    assert_eq!((s.width, s.height), (800, 600));
    assert!(!s.should_resize);
    assert!(!s.handle(SurfaceEvent::RedrawRequested { width: 640, height: 480 }));
}

#[test]
fn controller_tap_leaves_no_trace() {
    let mut c = Controller::new();
    c.handle(ControllerEvent::KeyPressed(MovementKey::W));
    c.handle(ControllerEvent::KeyPressed(MovementKey::S));
    c.handle(ControllerEvent::KeyPressed(MovementKey::Space));
    let before = c.movement();
    c.handle(ControllerEvent::KeyPressed(MovementKey::A));
    assert_eq!(c.movement(), (-1, -1, 1));
    c.handle(ControllerEvent::KeyReleased(MovementKey::A));
    assert_eq!(c.movement(), before);
    c.handle(ControllerEvent::KeyPressed(MovementKey::LShift));
    c.handle(ControllerEvent::KeyReleased(MovementKey::LShift));
    assert_eq!(c.movement(), before);
}

#[test]
fn inventory_redraw_rule() {
    let mut inv: Inventory<u8> = Inventory::new();
    assert!(!inv.redraw(false, false));
    assert!(!inv.is_updated);
    assert!(!inv.redraw(false, true));
    assert!(!inv.is_icon_flat);
    assert!(inv.redraw(true, true));
    inv.set_contents(vec![1, 2]);
    assert!(inv.redraw(false, true));
    assert!(inv.is_icon_flat);
    assert!(!inv.redraw(false, false));
    assert!(inv.is_icon_flat);
    inv.press_digit(2);
    assert!(!inv.redraw(false, true));
    assert!(inv.redraw(true, true));
}

#[test]
fn inventory_handles_events() {
    let mut inv: Inventory<u8> = Inventory::new();
    assert!(!inv.handle(InventoryEvent::PlayerInitialized(vec![4, 5])));
    assert!(inv.handle(InventoryEvent::RedrawRequested { is_resized: false, selected_is_flat: true }));
    assert!(!inv.handle(InventoryEvent::RedrawRequested { is_resized: false, selected_is_flat: false }));
    assert!(inv.is_icon_flat);
    assert!(!inv.handle(InventoryEvent::DigitPressed(2)));
    assert_eq!(inv.selected_block(), Some(5));
    assert!(inv.handle(InventoryEvent::RedrawRequested { is_resized: false, selected_is_flat: false }));
    assert!(!inv.is_icon_flat);
    assert!(inv.handle(InventoryEvent::RedrawRequested { is_resized: true, selected_is_flat: true }));
    assert!(!inv.handle(InventoryEvent::Other));
}
