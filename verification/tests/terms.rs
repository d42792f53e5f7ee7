//! Tests for the term representation: handles, interning, and the De
//! Bruijn cache.

use std::mem::align_of;
use std::mem::size_of;

use librealgebra::byte_string::ByteString;
use librealgebra::symbol::Symbols;
use librealgebra::term::Kind;
use librealgebra::term::Term;
use librealgebra::term::TermHeap;
use librealgebra::term::View;
use librealgebra::variable::DeBruijn;
use librealgebra::variable::DeBruijnCache;

/// The `Term` type has the same size and alignment as a word.  Handles
/// are passed around everywhere, so they must stay this small.
#[test]
fn term_size_align() {
    assert_eq!(size_of::<Term>(), size_of::<usize>());
    assert_eq!(align_of::<Term>(), align_of::<usize>());
}

/// Symbol identity: equal names give pointer-equal handles.
#[test]
fn interner_identity() {
    let mut heap = TermHeap::new();
    let mut symbols = Symbols::new();
    let a = symbols.get(&mut heap, b"Abc");
    let b = symbols.get(&mut heap, b"Abc");
    let c = symbols.get(&mut heap, b"Abd");
    assert!(a.term().ptr_eq(&b.term()));
    assert!(!a.term().ptr_eq(&c.term()));
    assert!(a == b);
    assert!(a.term().eq_symbol(&b));
    assert_eq!(a.name(&heap), b"Abc".to_vec());
}

#[test]
fn views_expose_the_payload() {
    let mut heap = TermHeap::new();
    let n = Term::integer_i32(&mut heap, 42);
    assert!(matches!(n.view(&heap), View::Integer(42)));
    assert!(matches!(n.kind(&heap), Kind::Integer));
    assert!(n.eq_integer_i32(&heap, 42));
    assert!(!n.eq_integer_i32(&heap, 41));

    let v = Term::variable(&mut heap, DeBruijn(3));
    assert!(v.eq_variable(&heap, DeBruijn(3)));
    assert!(!v.eq_variable(&heap, DeBruijn(2)));

    let s = Term::string(&mut heap, b"hi".to_vec());
    match s.view(&heap) {
        View::String(bytes) => assert_eq!(bytes, b"hi".to_vec()),
        _ => panic!("not a string"),
    }
    assert!(s.as_symbol(&heap).is_none());
    assert!(!s.is_symbol(&heap));
}

/// A variable appears free in itself; the cache answers exactly.
#[test]
fn variable_cache_contains_itself() {
    let mut heap = TermHeap::new();
    let v = Term::variable(&mut heap, DeBruijn(5));
    let cache = v.cache(&heap);
    assert_eq!(cache.contains(DeBruijn(5)), Some(true));
    assert_eq!(cache.contains(DeBruijn(4)), Some(false));
    assert_eq!(cache.contains(DeBruijn(100)), Some(false));
}

/// A large index puts the cache into the unknown state.
#[test]
fn large_index_is_unknown() {
    let mut heap = TermHeap::new();
    let v = Term::variable(&mut heap, DeBruijn(16));
    assert!(v.cache(&heap).is_unknown());
    assert_eq!(v.cache(&heap).contains(DeBruijn(16)), None);
}

#[test]
fn empty_cache_answers_false() {
    let cache = DeBruijnCache::empty();
    assert_eq!(cache.contains(DeBruijn(0)), Some(false));
    assert_eq!(cache.contains(DeBruijn(15)), Some(false));
    assert!(!cache.is_unknown());
}

#[test]
fn unknown_cache_answers_none() {
    let cache = DeBruijnCache::unknown();
    assert_eq!(cache.contains(DeBruijn(0)), None);
    assert!(cache.is_unknown());
}

#[test]
fn inserting_all_small_indices_enters_unknown() {
    let mut cache = DeBruijnCache::empty();
    let mut i = 0u32;
    while i < 16 {
        cache = cache.insert(DeBruijn(i));
        i += 1;
    }
    assert!(cache.is_unknown());
}

#[test]
fn shift_moves_indices_outward() {
    let cache = DeBruijnCache::empty().insert(DeBruijn(15)).shift_out(3);
    assert_eq!(cache.contains(DeBruijn(12)), Some(true));
    assert_eq!(cache.contains(DeBruijn(15)), Some(false));
    assert!(DeBruijnCache::unknown().shift_out(3).is_unknown());
}

/// De Bruijn cache composition: a lambda discards its bound indices, an
/// application takes the union of its parts.
#[test]
fn cache_composition() {
    let mut heap = TermHeap::new();
    let mut symbols = Symbols::new();
    let x = symbols.get(&mut heap, b"x");
    let v0 = Term::variable(&mut heap, DeBruijn(0));
    let v2 = Term::variable(&mut heap, DeBruijn(2));
    let f = symbols.get(&mut heap, b"f").term();
    let app = Term::application(&mut heap, f, vec![v0, v2]);
    assert_eq!(app.cache(&heap).contains(DeBruijn(0)), Some(true));
    assert_eq!(app.cache(&heap).contains(DeBruijn(1)), Some(false));
    assert_eq!(app.cache(&heap).contains(DeBruijn(2)), Some(true));

    let param = librealgebra::lambda::Parameter {
        strictness: librealgebra::lambda::Strictness::Strict,
        name: x,
    };
    let lam = Term::lambda(&mut heap, vec![param], app);
    // Index 0 is bound; index 2 of the body is index 1 outside.
    assert_eq!(lam.cache(&heap).contains(DeBruijn(0)), Some(false));
    assert_eq!(lam.cache(&heap).contains(DeBruijn(1)), Some(true));
}

/// A view hands back the very child handles the constructor stored.
#[test]
fn view_returns_the_stored_children() {
    let mut heap = TermHeap::new();
    let mut symbols = Symbols::new();
    let f = symbols.get(&mut heap, b"f").term();
    let a = Term::integer_i32(&mut heap, 1);
    let b = Term::integer_i32(&mut heap, 2);
    let app = Term::application(&mut heap, f, vec![a, b]);
    match app.view(&heap) {
        View::Application(g, xs) => {
            assert!(g.ptr_eq(&f));
            assert!(xs[0].ptr_eq(&a));
            assert!(xs[1].ptr_eq(&b));
        },
        _ => panic!("not an application"),
    }
    let x = symbols.get(&mut heap, b"x");
    let param = librealgebra::lambda::Parameter {
        strictness: librealgebra::lambda::Strictness::Strict,
        name: x,
    };
    let lam = Term::lambda(&mut heap, vec![param], app);
    match lam.view(&heap) {
        View::Lambda(_, body) => assert!(body.ptr_eq(&app)),
        _ => panic!("not a lambda"),
    }
}

#[test]
fn byte_strings_escape() {
    let plain = ByteString(b"Abc".to_vec());
    assert_eq!(plain.escaped(), b"Abc".to_vec());
    let tricky = ByteString(vec![9, 10, 13, 92, 34, 39, 0, 255]);
    assert_eq!(
        tricky.escaped(),
        b"\\t\\n\\r\\\\\\\"\\'\\x00\\xff".to_vec(),
    );
}
