use lsystem::algae::{algae_rule, AlgeaAlphabet};
use lsystem::LSystem;
use AlgeaAlphabet::{A, B};

#[derive(Clone, Copy, Debug, PartialEq, Eq)]
enum Sym {
    C,
    D,
    E,
}

fn take_generations<T: Copy, F: Fn(T) -> Vec<T>>(p: &mut LSystem<T, F>, n: usize) -> Vec<Vec<T>> {
    let mut out = Vec::new();
    for _ in 0..n {
        out.push(p.next().expect("an L-system never runs out of generations"));
    }
    out
}

#[test]
fn algae_rule_images() {
    assert_eq!(algae_rule(AlgeaAlphabet::A), vec![AlgeaAlphabet::A, AlgeaAlphabet::B]);
    assert_eq!(algae_rule(AlgeaAlphabet::B), vec![AlgeaAlphabet::A]);
}

#[test]
fn algae_first_five_generations() {
    let mut p = LSystem::new(vec![B], algae_rule);
    let gens = take_generations(&mut p, 5);
    assert_eq!(gens[0], vec![B]);
    assert_eq!(gens[1], vec![A]);
    assert_eq!(gens[2], vec![A, B]);
    assert_eq!(gens[3], vec![A, B, A]);
    assert_eq!(gens[4], vec![A, B, A, A, B]);
    assert_eq!(gens[4].len(), 5);
}

#[test]
fn algae_with_closure_rule() {
    let mut p = LSystem::new(vec![A], |x| match x {
        A => vec![A, B],
        B => vec![A],
    });
    let gens = take_generations(&mut p, 8);
    let lens: Vec<usize> = gens.iter().map(|g| g.len()).collect();
    assert_eq!(lens, vec![1, 2, 3, 5, 8, 13, 21, 34]);
    assert_eq!(gens[4], vec![A, B, A, A, B, A, B, A]);
}

#[test]
fn first_call_returns_start_unchanged() {
    let start = vec![Sym::C, Sym::D, Sym::E, Sym::C];
    let mut p = LSystem::new(start.clone(), |_x| Vec::<Sym>::new());
    assert_eq!(p.next(), Some(start));
}

#[test]
fn next_generation_is_concatenation_of_images() {
    let rule = |x: Sym| match x {
        Sym::C => vec![Sym::D, Sym::E],
        Sym::D => vec![],
        Sym::E => vec![Sym::C, Sym::C, Sym::D],
    };
    let start = vec![Sym::C, Sym::E, Sym::D, Sym::C];
    let mut p = LSystem::new(start.clone(), rule);
    let gens = take_generations(&mut p, 3);
    assert_eq!(gens[1], vec![Sym::D, Sym::E, Sym::C, Sym::C, Sym::D, Sym::D, Sym::E]);
    let expected_len: usize = start.iter().map(|s| rule(*s).len()).sum();
    assert_eq!(gens[1].len(), expected_len);
    let mut concat = Vec::new();
    for s in gens[1].iter() {
        concat.extend(rule(*s));
    }
    assert_eq!(gens[2], concat);
}

#[test]
fn images_keep_their_order_and_offsets() {
    let rule = |x: u8| -> Vec<u8> { (0..x).map(|k| x * 10 + k).collect() };
    let start: Vec<u8> = vec![2, 0, 3, 1];
    let mut p = LSystem::new(start.clone(), rule);
    let gens = take_generations(&mut p, 2);
    let next = &gens[1];
    let mut offset = 0;
    for s in start.iter() {
        let img = rule(*s);
        assert_eq!(&next[offset..offset + img.len()], &img[..]);
        offset += img.len();
    }
    assert_eq!(offset, next.len());
    assert_eq!(next, &vec![20, 21, 30, 31, 32, 10]);
}

#[test]
fn independent_systems_agree() {
    let mut p = LSystem::new(vec![B], algae_rule);
    let mut q = LSystem::new(vec![B], algae_rule);
    let first = take_generations(&mut p, 3);
    assert_eq!(take_generations(&mut q, 6)[..3], first[..]);
    let later_p = take_generations(&mut p, 5);
    let later_q = take_generations(&mut q, 2);
    assert_eq!(later_p[3..], later_q[..]);
}

#[test]
fn constant_rule_keeps_generation() {
    let mut p = LSystem::new(vec![Sym::C], |x| vec![x]);
    for _ in 0..50 {
        assert_eq!(p.next(), Some(vec![Sym::C]));
    }
}

#[test]
fn vanishing_symbols_shrink_to_empty() {
    let rule = |x: Sym| match x {
        Sym::C => vec![Sym::D],
        Sym::D => vec![Sym::E],
        Sym::E => vec![],
    };
    let mut p = LSystem::new(vec![Sym::C, Sym::E, Sym::C], rule);
    let gens = take_generations(&mut p, 8);
    assert_eq!(gens[0].len(), 3);
    assert_eq!(gens[1], vec![Sym::D, Sym::D]);
    assert_eq!(gens[2], vec![Sym::E, Sym::E]);
    for g in gens[3..].iter() {
        assert!(g.is_empty());
    }
}

#[test]
fn empty_start_stays_empty() {
    let mut p = LSystem::new(Vec::<Sym>::new(), |x| vec![x, x, Sym::D]);
    for _ in 0..10 {
        assert_eq!(p.next(), Some(Vec::new()));
    }
}
