use todo_list::Todo;
use todo_list::TodoError;
use todo_list::Todos;

#[test]
fn display() {
    let mut todos = Todos::new();
    todos.add_todo("Learn Rust");
    todos.add_todo("Profit!");

    assert_eq!(todos.render(), "1. [ ] Learn Rust\n2. [ ] Profit!\n");
}

#[test]
fn add_todo() {
    let mut todos = Todos::new();
    todos.add_todo("Learn Rust");
    todos.add_todo("Profit!");

    assert_eq!(todos.list.len(), 2);
    assert_eq!(todos.list[0].name, "Learn Rust");
    assert_eq!(todos.list[1].name, "Profit!");
    assert!(!todos.list[0].completed);
    assert!(!todos.list[1].completed);
}

#[test]
fn complete_by_name() {
    let mut todos = Todos::new();
    todos.add_todo("Learn Rust");
    todos.add_todo("Profit!");

    todos.complete_by_name("Rust");

    assert!(todos.list[0].completed);
    assert!(!todos.list[1].completed);
}

#[test]
fn complete_by_index() {
    let mut todos = Todos::new();
    todos.add_todo("Learn Rust");
    todos.add_todo("Profit!");

    todos.complete_by_index(1).unwrap();

    assert!(todos.list[0].completed);
    assert!(!todos.list[1].completed);
}

#[test]
fn uncompleted_by_name() {
    let mut todos = Todos::new();
    todos.add_todo("Learn Rust");
    todos.add_todo("Profit!");

    todos.complete_by_name("Rust");
    todos.complete_by_name("Rust");

    assert!(!todos.list[0].completed);
    assert!(!todos.list[1].completed);
}

#[test]
fn uncompleted_by_index() {
    let mut todos = Todos::new();
    todos.add_todo("Learn Rust");
    todos.add_todo("Profit!");

    todos.complete_by_index(1).unwrap();
    todos.complete_by_index(1).unwrap();

    assert!(!todos.list[0].completed);
    assert!(!todos.list[1].completed);
}

#[test]
fn delete_by_name() {
    let mut todos = Todos::new();
    todos.add_todo("Learn Rust");
    todos.add_todo("Profit!");

    todos.delete_todo_by_name("Learn Rust");

    assert_eq!(todos.list.len(), 1);
    assert_eq!(todos.list[0].name, "Profit!");
}

#[test]
fn delete_by_index() {
    let mut todos = Todos::new();
    todos.add_todo("Learn Rust");
    todos.add_todo("Profit!");

    todos.delete_todo_by_index(1).unwrap();

    assert_eq!(todos.list.len(), 1);
    assert_eq!(todos.list[0].name, "Profit!");
}

#[test]
fn render_empty_collection() {
    let todos = Todos::new();

    assert_eq!(todos.render(), "");
}

#[test]
fn render_numbers_past_nine() {
    let mut todos = Todos::new();
    let mut expected = String::new();
    for i in 1..=12 {
        todos.add_todo("x");
        expected.push_str(&format!("{}. [ ] x\n", i));
    }

    assert_eq!(todos.render(), expected);
}

#[test]
fn complete_by_name_first_match_only() {
    let mut todos = Todos::new();
    todos.add_todo("Buy Milk");
    todos.add_todo("Buy Milk");
    todos.add_todo("Buy Water");

    todos.complete_by_name("Buy");

    assert!(todos.list[0].completed);
    assert!(!todos.list[1].completed);
    assert!(!todos.list[2].completed);
}

#[test]
fn complete_by_name_no_match_is_noop() {
    let mut todos = Todos::new();
    todos.add_todo("Learn Rust");

    todos.complete_by_name("Cook");

    assert!(!todos.list[0].completed);
    assert_eq!(todos.list.len(), 1);
}

#[test]
fn complete_by_index_zero_fails_and_mutates_nothing() {
    let mut todos = Todos::new();
    todos.add_todo("Learn Rust");
    todos.add_todo("Profit!");

    let result = todos.complete_by_index(0);

    assert_eq!(result, Err(TodoError::InvalidIndex));
    assert!(!todos.list[0].completed);
    assert!(!todos.list[1].completed);
}

#[test]
fn complete_by_index_out_of_range_is_noop() {
    let mut todos = Todos::new();
    todos.add_todo("Learn Rust");
    todos.add_todo("Profit!");

    let result = todos.complete_by_index(99);

    assert_eq!(result, Ok(()));
    assert!(!todos.list[0].completed);
    assert!(!todos.list[1].completed);
    assert_eq!(todos.list.len(), 2);
}

#[test]
fn delete_by_name_removes_all_matches() {
    let mut todos = Todos::new();
    todos.add_todo("Buy Milk");
    todos.add_todo("Learn Rust");
    todos.add_todo("Buy Water");

    todos.delete_todo_by_name("Buy");

    assert_eq!(todos.list.len(), 1);
    assert_eq!(todos.list[0].name, "Learn Rust");
}

#[test]
fn delete_by_name_no_match_is_noop() {
    let mut todos = Todos::new();
    todos.add_todo("Learn Rust");

    todos.delete_todo_by_name("Cook");

    assert_eq!(todos.list.len(), 1);
    assert_eq!(todos.list[0].name, "Learn Rust");
}

#[test]
fn delete_by_index_zero_fails_and_mutates_nothing() {
    let mut todos = Todos::new();
    todos.add_todo("Learn Rust");
    todos.add_todo("Profit!");

    let result = todos.delete_todo_by_index(0);

    assert_eq!(result, Err(TodoError::InvalidIndex));
    assert_eq!(todos.list.len(), 2);
}

#[test]
fn delete_by_index_out_of_range_is_noop() {
    let mut todos = Todos::new();
    todos.add_todo("Learn Rust");
    todos.add_todo("Profit!");

    let result = todos.delete_todo_by_index(99);

    assert_eq!(result, Ok(()));
    assert_eq!(todos.list.len(), 2);
}

#[test]
fn invalid_index_message() {
    assert_eq!(TodoError::InvalidIndex.message(), "Index must be greater than 0");
}

#[test]
fn load_records_from_missing_store() {
    let (todos, must_create) = Todos::load_records(None);

    assert!(todos.list.is_empty());
    assert!(must_create);
}

#[test]
fn load_records_keeps_entries() {
    let mut stored = Vec::new();
    stored.push(Todo::new("Learn Rust"));
    let mut done = Todo::new("Profit!");
    done.toggle_complete();
    stored.push(done);

    let (todos, must_create) = Todos::load_records(Some(stored));

    assert!(!must_create);
    assert_eq!(todos.list.len(), 2);
    assert_eq!(todos.list[0].name, "Learn Rust");
    assert!(!todos.list[0].completed);
    assert_eq!(todos.list[1].name, "Profit!");
    assert!(todos.list[1].completed);
}
