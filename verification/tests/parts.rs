use cassowary::Variable;
use limn_layout::assoc::{position, remove_value, AssocList, Handle};
use limn_layout::edit_text::{edit_text_handle_char, typed_text, TextUpdated, BACKSPACE};
use limn_layout::event::{Queue, Target, WidgetId};
use limn_layout::layout::LayoutVars;

fn text(s: &str) -> Vec<char> {
    s.chars().collect()
}

#[test]
fn assoc_list_maps_each_key_once() {
    let mut list: AssocList<Variable, u32> = AssocList::new();
    let (a, b) = (Variable::new(), Variable::new());
    assert_eq!(list.insert(a, 1), None);
    assert_eq!(list.insert(b, 2), None);
    assert_eq!(list.insert(a, 3), Some(1));
    assert_eq!(list.len(), 2);
    assert_eq!(list.get(&a), Some(&3));
    assert!(list.contains_key(&b));
    assert_eq!(list.keys(), &vec![a, b]);
    assert_eq!(list.key_at(1), &b);
    assert_eq!(list.remove(&a), Some(3));
    assert_eq!(list.remove(&a), None);
    assert_eq!(list.get(&a), None);
    assert_eq!(list.get(&b), Some(&2));
    assert_eq!(list.len(), 1);
}

#[test]
fn position_finds_the_first_occurrence() {
    let (a, b, c) = (Variable::new(), Variable::new(), Variable::new());
    let list = vec![a, b, a];
    assert_eq!(position(&list, &a), Some(0));
    assert_eq!(position(&list, &b), Some(1));
    assert_eq!(position(&list, &c), None);
    assert!(a.same(&a) && !a.same(&b));
}

#[test]
fn remove_value_takes_one_key_out() {
    let (a, b, c) = (Variable::new(), Variable::new(), Variable::new());
    let mut list = vec![a, b, c];
    remove_value(&mut list, &b);
    assert_eq!(list, vec![a, c]);
    remove_value(&mut list, &b);
    assert_eq!(list, vec![a, c]);
}

#[test]
fn layout_vars_array_is_the_four_own_variables() {
    let vars = LayoutVars {
        left: Variable::new(),
        top: Variable::new(),
        right: Variable::new(),
        bottom: Variable::new(),
        width: Variable::new(),
        height: Variable::new(),
    };
    assert_eq!(vars.array(), [vars.left, vars.top, vars.width, vars.height]);
}

#[test]
fn queue_hands_events_out_in_their_order() {
    let mut queue: Queue<u32> = Queue::new();
    assert!(queue.is_empty());
    assert_eq!(queue.try_next(), None);
    queue.push(Target::Widget(WidgetId(3)), 10);
    queue.push(Target::Ui, 20);
    queue.push(Target::BubbleUp(WidgetId(4)), 30);
    assert!(!queue.is_empty());
    assert_eq!(queue.next(), (Target::Widget(WidgetId(3)), 10));
    assert_eq!(queue.try_next(), Some((Target::Ui, 20)));
    assert_eq!(queue.next(), (Target::BubbleUp(WidgetId(4)), 30));
    assert!(queue.is_empty());
}

#[test]
fn typed_character_is_kept_only_if_the_text_fits() {
    assert_eq!(edit_text_handle_char(text("ab"), 'c', true), text("abc"));
    assert_eq!(edit_text_handle_char(text("ab"), 'c', false), text("ab"));
    assert_eq!(typed_text(&text("ab"), 'c'), text("abc"));
}

#[test]
fn backspace_takes_the_last_character_away() {
    assert_eq!(BACKSPACE, '\u{8}');
    assert_eq!(edit_text_handle_char(text("ab"), BACKSPACE, true), text("a"));
    assert_eq!(edit_text_handle_char(text("ab"), BACKSPACE, false), text("a"));
    assert_eq!(edit_text_handle_char(text(""), BACKSPACE, false), text(""));
    assert_eq!(typed_text(&text("ab"), BACKSPACE), text("a"));
    assert_eq!(typed_text(&text(""), BACKSPACE), text(""));
    assert_eq!(TextUpdated("a".to_string()).0, "a");
}
