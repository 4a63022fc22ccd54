use gigli::stdlib::list::List;
use gigli::stdlib::option::Option as Maybe;
use gigli::stdlib::result::Result as Outcome;

#[test]
fn list_push_pop_len() {
    let mut l: List<i32> = List::new();
    assert!(l.is_empty());
    l.push(1);
    l.push(2);
    assert_eq!(l.len(), 2);
    assert_eq!(l.get(1), Some(&2));
    assert_eq!(l.get(2), None);
    assert_eq!(l.pop(), Some(2));
    assert_eq!(l.pop(), Some(1));
    assert_eq!(l.pop(), None);
}

#[test]
fn list_set_get_mut_iter() {
    let mut l: List<i32> = List::new();
    l.push(1);
    l.push(2);
    l.set(0, 10);
    l.set(5, 99);
    assert_eq!(l.iter().copied().collect::<Vec<_>>(), vec![10, 2]);
    if let Some(x) = l.get_mut(1) {
        *x = 20;
    }
    assert!(l.get_mut(2).is_none());
    for x in l.iter_mut() {
        *x += 1;
    }
    assert_eq!(l.iter().copied().collect::<Vec<_>>(), vec![11, 21]);
}

#[test]
fn list_map_filter() {
    let mut l: List<i32> = List::new();
    for i in 0..6 {
        l.push(i);
    }
    let doubled = l.map(|x| x * 2);
    assert_eq!(doubled.iter().copied().collect::<Vec<_>>(), vec![0, 2, 4, 6, 8, 10]);
    let even = l.filter(|x| x % 2 == 0);
    assert_eq!(even.iter().copied().collect::<Vec<_>>(), vec![0, 2, 4]);
    assert_eq!(l.filter(|_| false).len(), 0);
}

#[test]
fn option_methods() {
    let some: Maybe<i32> = Maybe::Present(3);
    let none: Maybe<i32> = Maybe::Absent;
    assert!(some.is_some() && !some.is_none());
    assert!(none.is_none() && !none.is_some());
    assert_eq!(some.clone().unwrap(), 3);
    assert_eq!(none.clone().unwrap_or(7), 7);
    assert_eq!(some.clone().map(|x| x + 1), Maybe::Present(4));
    assert_eq!(none.clone().map(|x| x + 1), Maybe::Absent);
    assert_eq!(some.and_then(|x| if x > 2 { Maybe::Present(x) } else { Maybe::Absent }), Maybe::Present(3));
}

#[test]
fn result_methods() {
    let ok: Outcome<i32, String> = Outcome::Success(2);
    let err: Outcome<i32, String> = Outcome::Failure("bad".to_string());
    assert!(ok.is_ok() && !ok.is_err());
    assert!(err.is_err() && !err.is_ok());
    assert_eq!(ok.clone().unwrap(), 2);
    assert_eq!(err.clone().unwrap_or(9), 9);
    assert_eq!(ok.clone().map(|x| x * 10), Outcome::Success(20));
    assert_eq!(err.clone().map_err(|e| e.len()), Outcome::Failure(3));
    assert_eq!(ok.and_then(|x| Outcome::<i32, String>::Success(x + 1)), Outcome::Success(3));
    assert_eq!(err.and_then(|x| Outcome::<i32, String>::Success(x + 1)), Outcome::Failure("bad".to_string()));
}
