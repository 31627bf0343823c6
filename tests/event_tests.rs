use rusty_voxel_engine::event_manager::{Event, EventHandler, EventManager};

struct Ping;

impl Event for Ping {
    const KIND: u64 = 1;
}

struct Pong;

impl Event for Pong {
    const KIND: u64 = 2;
}

struct Counter {
    count: u32,
}

impl EventHandler for Counter {
    fn handle_event<E: Event>(&mut self, _event: &E) -> Vec<E> {
        self.count += 1;
        Vec::new()
    }
}

#[test]
fn events_reach_only_their_handlers() {
    let mut manager = EventManager::new();
    manager.register_handler::<Ping>(Counter { count: 0 });
    manager.register_handler::<Pong>(Counter { count: 0 });
    manager.register_handler::<Ping>(Counter { count: 0 });
    manager.process_event(&Ping);
    manager.process_event(&Ping);
    manager.process_event(&Pong);
    let counts: Vec<(u64, u32)> = manager.handlers.iter().map(|(k, h)| (*k, h.handler.count)).collect();
    assert_eq!(counts, vec![(1, 2), (2, 1), (1, 2)]);
}

#[test]
fn event_with_no_handlers_changes_nothing() {
    let mut manager: EventManager<Counter> = EventManager::new();
    manager.process_event(&Ping);
    assert!(manager.handlers.is_empty());
    manager.register_handler::<Pong>(Counter { count: 0 });
    manager.process_event(&Ping);
    assert_eq!(manager.handlers[0].1.handler.count, 0);
}
