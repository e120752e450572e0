use sc_tester::call_stack::{CallItem, CallStack};

fn item(a: &str, coins: u64) -> CallItem {
    CallItem { address: a.to_string(), coins }
}

#[test]
fn reset_then_pushes_then_pops_is_empty() {
    let mut st = CallStack::new();
    st.push(item("old", 1));
    st.reset();
    assert!(st.current().is_none());
    for n in 0..5u64 {
        st.push(item("a", n));
    }
    assert_eq!(st.len(), 5);
    for n in (0..5u64).rev() {
        assert_eq!(st.pop(), Some(item("a", n)));
    }
    assert!(st.is_empty());
    assert!(st.current().is_none());
    assert_eq!(st.pop(), None);
}

#[test]
fn lifo_order() {
    let mut st = CallStack::new();
    st.reset();
    st.push(item("x", 1));
    st.push(item("y", 2));
    assert_eq!(st.current(), Some(&item("y", 2)));
    assert_eq!(st.pop(), Some(item("y", 2)));
    assert_eq!(st.current(), Some(&item("x", 1)));
    assert_eq!(st.pop(), Some(item("x", 1)));
    assert_eq!(st.pop(), None);
}
