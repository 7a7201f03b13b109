use termpipe::ecs::component::Component;
use termpipe::ecs::component_manager::ComponentManager;
use termpipe::ecs::entity::Entity;
use termpipe::fence::FenceRC;
use termpipe::renderer::render_system::RenderSystem;

#[derive(Debug, PartialEq)]
struct Counter {
    value: usize,
}

impl Component for Counter {
    fn new() -> Counter {
        Counter { value: 0 }
    }
}

#[test]
fn component_lifecycle() {
    let mut manager: ComponentManager<Counter> = ComponentManager::new(8);
    let e2 = Entity::new(2);
    let e5 = Entity::new(5);

    assert!(manager.get(&e2).is_none());
    manager.create(&e2).value = 11;
    manager.create(&e5);
    assert_eq!(manager.get(&e2).unwrap().value, 11);
    assert_eq!(manager.get(&e5).unwrap().value, 0);

    // Creating again keeps the existing component.
    manager.create(&e2);
    assert_eq!(manager.get(&e2).unwrap().value, 11);

    manager.get_mut(&e5).unwrap().value = 7;
    assert_eq!(manager.get(&e5).unwrap().value, 7);

    assert_eq!(manager.entities_with_components(), vec![2, 5]);

    manager.remove(&e2);
    assert!(manager.get(&e2).is_none());
    assert_eq!(manager.get(&e5).unwrap().value, 7);
    assert_eq!(manager.entities_with_components(), vec![5]);
}

#[test]
fn render_system_intersects_component_lists() {
    let system = RenderSystem::new(FenceRC::new());
    let transforms = vec![1, 3, 5, 7];
    let sprites = vec![3, 5, 7, 9];
    let to_draw = system.update(&transforms, &sprites, 10);
    assert_eq!(to_draw, vec![3, 5, 7]);
}

#[test]
fn render_system_with_no_overlap_draws_nothing() {
    let system = RenderSystem::new(FenceRC::new());
    let to_draw = system.update(&vec![0, 2], &vec![1, 3], 4);
    assert_eq!(to_draw, Vec::<usize>::new());
}
