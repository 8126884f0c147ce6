use ir_emit::data::{fragment_size, Declaration, Fragment, Linkage};
use ir_emit::layout::{
    aggregate_of, base_kind, checked_align_up, is_power_of_two, layout_of, BaseKind, Layout, Repr,
    WellFormednessError,
};
use ir_emit::name::{Name, NameKind, SymbolTable};

#[test]
fn intern_twice_returns_the_same_identity() {
    let mut table = SymbolTable::new();
    let first = table.intern(NameKind::Global, "main");
    let second = table.intern(NameKind::Global, "main");
    assert_eq!(first, second);
    assert_eq!(table.len(), 1);
}

#[test]
fn intern_same_text_under_other_kind_is_distinct() {
    let mut table = SymbolTable::new();
    let global = table.intern(NameKind::Global, "x");
    let local = table.intern(NameKind::Local, "x");
    let label = table.intern(NameKind::Label, "x");
    assert_ne!(global, local);
    assert_ne!(global, label);
    assert_ne!(local, label);
    assert_eq!(table.len(), 3);
}

#[test]
fn intern_issues_identities_in_order() {
    let mut table = SymbolTable::new();
    let a = table.intern(NameKind::Local, "a");
    let b = table.intern(NameKind::Local, "b");
    assert_eq!(a, Name { kind: NameKind::Local, id: 0 });
    assert_eq!(b, Name { kind: NameKind::Local, id: 1 });
    assert_eq!(table.intern(NameKind::Local, "a"), a);
    assert_eq!(table.len(), 2);
}

#[test]
fn resolve_gives_back_the_interned_text() {
    let mut table = SymbolTable::new();
    let a = table.intern(NameKind::Label, "loop");
    let b = table.intern(NameKind::Global, "");
    assert_eq!(table.resolve(a), "loop");
    assert_eq!(table.resolve(b), "");
}

#[test]
fn lookup_finds_only_what_was_interned() {
    let mut table = SymbolTable::new();
    assert_eq!(table.lookup(NameKind::Global, "f"), None);
    let f = table.intern(NameKind::Global, "f");
    assert_eq!(table.lookup(NameKind::Global, "f"), Some(f));
    assert_eq!(table.lookup(NameKind::Local, "f"), None);
    assert_eq!(table.lookup(NameKind::Global, "g"), None);
}

#[test]
fn owns_rejects_foreign_identities() {
    let mut table = SymbolTable::new();
    let f = table.intern(NameKind::Global, "f");
    assert!(table.owns(f));
    assert!(!table.owns(Name { kind: NameKind::Local, id: 0 }));
    assert!(!table.owns(Name { kind: NameKind::Global, id: 1 }));
}

#[test]
fn scalar_layouts() {
    assert_eq!(layout_of(Repr::Int(8)), Ok(Layout { size: 1, align: 1 }));
    assert_eq!(layout_of(Repr::Int(16)), Ok(Layout { size: 2, align: 2 }));
    assert_eq!(layout_of(Repr::Int(32)), Ok(Layout { size: 4, align: 4 }));
    assert_eq!(layout_of(Repr::Int(64)), Ok(Layout { size: 8, align: 8 }));
    assert_eq!(layout_of(Repr::Float(32)), Ok(Layout { size: 4, align: 4 }));
    assert_eq!(layout_of(Repr::Float(64)), Ok(Layout { size: 8, align: 8 }));
    assert_eq!(layout_of(Repr::Pointer), Ok(Layout { size: 8, align: 8 }));
}

#[test]
fn unsupported_widths_have_no_layout() {
    assert_eq!(layout_of(Repr::Int(0)), Err(WellFormednessError::UnsupportedWidth));
    assert_eq!(layout_of(Repr::Int(24)), Err(WellFormednessError::UnsupportedWidth));
    assert_eq!(layout_of(Repr::Float(16)), Err(WellFormednessError::UnsupportedWidth));
    assert_eq!(layout_of(Repr::Float(8)), Err(WellFormednessError::UnsupportedWidth));
}

#[test]
fn aggregate_layouts() {
    assert_eq!(
        layout_of(Repr::Aggregate { size: 24, align: 8 }),
        Ok(Layout { size: 24, align: 8 })
    );
    assert_eq!(layout_of(Repr::Aggregate { size: 0, align: 0 }), Ok(Layout { size: 0, align: 0 }));
    assert_eq!(layout_of(Repr::Aggregate { size: 3, align: 1 }), Ok(Layout { size: 3, align: 1 }));
}

#[test]
fn ill_formed_aggregates_have_no_layout() {
    let ill = Err(WellFormednessError::IllFormedAggregate);
    assert_eq!(layout_of(Repr::Aggregate { size: 0, align: 4 }), ill);
    assert_eq!(layout_of(Repr::Aggregate { size: 8, align: 0 }), ill);
    assert_eq!(layout_of(Repr::Aggregate { size: 12, align: 8 }), ill);
    assert_eq!(layout_of(Repr::Aggregate { size: 12, align: 3 }), ill);
}

#[test]
fn base_kinds() {
    assert_eq!(base_kind(Repr::Int(32)), BaseKind::Integer);
    assert_eq!(base_kind(Repr::Float(64)), BaseKind::Float);
    assert_eq!(base_kind(Repr::Pointer), BaseKind::Pointer);
    assert_eq!(base_kind(Repr::Aggregate { size: 8, align: 8 }), BaseKind::Aggregate);
}

#[test]
fn powers_of_two() {
    assert!(!is_power_of_two(0));
    assert!(is_power_of_two(1));
    assert!(is_power_of_two(2));
    assert!(!is_power_of_two(3));
    assert!(is_power_of_two(4096));
    assert!(!is_power_of_two(4097));
    assert!(is_power_of_two(1u64 << 63));
    assert!(!is_power_of_two(u64::MAX));
}

#[test]
fn align_up_values() {
    assert_eq!(checked_align_up(0, 8), Some(0));
    assert_eq!(checked_align_up(1, 8), Some(8));
    assert_eq!(checked_align_up(8, 8), Some(8));
    assert_eq!(checked_align_up(9, 4), Some(12));
    assert_eq!(checked_align_up(13, 0), Some(13));
    assert_eq!(checked_align_up(u64::MAX, 2), None);
    assert_eq!(checked_align_up(u64::MAX - 1, 2), Some(u64::MAX - 1));
}

#[test]
fn aggregate_of_pads_members_and_whole() {
    let members = vec![Repr::Int(8), Repr::Int(32), Repr::Int(8)];
    assert_eq!(aggregate_of(&members), Ok(Repr::Aggregate { size: 12, align: 4 }));
    let members = vec![Repr::Int(8), Repr::Int(64)];
    assert_eq!(aggregate_of(&members), Ok(Repr::Aggregate { size: 16, align: 8 }));
    let members = vec![Repr::Int(32), Repr::Int(32)];
    assert_eq!(aggregate_of(&members), Ok(Repr::Aggregate { size: 8, align: 4 }));
}

#[test]
fn aggregate_size_covers_members_and_takes_largest_alignment() {
    let members = vec![Repr::Int(16), Repr::Pointer, Repr::Int(8), Repr::Float(32)];
    let built = aggregate_of(&members).unwrap();
    let layout = layout_of(built).unwrap();
    let mut sum = 0;
    let mut largest = 0;
    for m in &members {
        let l = layout_of(*m).unwrap();
        sum += l.size;
        largest = largest.max(l.align);
    }
    assert!(layout.size >= sum);
    assert_eq!(layout.align, largest);
    assert_eq!(layout, Layout { size: 24, align: 8 });
}

#[test]
fn aggregate_of_nothing_is_empty() {
    let members: Vec<Repr> = Vec::new();
    assert_eq!(aggregate_of(&members), Ok(Repr::Aggregate { size: 0, align: 0 }));
}

#[test]
fn aggregate_of_nested_aggregates() {
    let inner = aggregate_of(&vec![Repr::Int(8), Repr::Int(16)]).unwrap();
    assert_eq!(inner, Repr::Aggregate { size: 4, align: 2 });
    let outer = aggregate_of(&vec![Repr::Int(8), inner, Repr::Int(32)]).unwrap();
    assert_eq!(outer, Repr::Aggregate { size: 12, align: 4 });
}

#[test]
fn aggregate_of_reports_the_first_bad_member() {
    let members = vec![Repr::Int(8), Repr::Aggregate { size: 0, align: 2 }, Repr::Int(7)];
    assert_eq!(aggregate_of(&members), Err(WellFormednessError::IllFormedAggregate));
    let members = vec![Repr::Float(12), Repr::Aggregate { size: 0, align: 2 }];
    assert_eq!(aggregate_of(&members), Err(WellFormednessError::UnsupportedWidth));
}

#[test]
fn aggregate_of_too_large() {
    let huge = Repr::Aggregate { size: 1u64 << 63, align: 1 };
    assert_eq!(aggregate_of(&vec![huge, huge]), Err(WellFormednessError::TooLarge));
    let members = vec![huge, huge, Repr::Int(3)];
    assert_eq!(aggregate_of(&members), Err(WellFormednessError::UnsupportedWidth));
    let nearly = Repr::Aggregate { size: u64::MAX, align: 1 };
    assert_eq!(aggregate_of(&vec![nearly, Repr::Int(16)]), Err(WellFormednessError::TooLarge));
}

#[test]
fn fragment_sizes() {
    let mut table = SymbolTable::new();
    let s = table.intern(NameKind::Global, "s");
    assert_eq!(fragment_size(Fragment::Zero(13)), Ok(13));
    assert_eq!(fragment_size(Fragment::Scalar(1, Repr::Int(16))), Ok(2));
    assert_eq!(fragment_size(Fragment::SymbolRef(s)), Ok(8));
    assert_eq!(
        fragment_size(Fragment::Scalar(1, Repr::Int(5))),
        Err(WellFormednessError::UnsupportedWidth)
    );
}

#[test]
fn declaration_size_of_zero_fill_and_scalar() {
    let mut table = SymbolTable::new();
    let name = table.intern(NameKind::Global, "counter");
    let mut d = Declaration::new(name, Linkage::Internal, 8);
    d.push(Fragment::Zero(4));
    d.push(Fragment::Scalar(7, Repr::Int(32)));
    assert_eq!(d.size(), Ok(8));
    assert_eq!(d.align(), 8);
    assert_eq!(d.fragments().len(), 2);
    assert_eq!(d.fragments()[0], Fragment::Zero(4));
    assert_eq!(d.fragments()[1], Fragment::Scalar(7, Repr::Int(32)));
}

#[test]
fn declaration_size_is_padded_to_alignment() {
    let mut table = SymbolTable::new();
    let name = table.intern(NameKind::Global, "d");
    let mut d = Declaration::new(name, Linkage::Export, 8);
    assert_eq!(d.size(), Ok(0));
    d.push(Fragment::Scalar(1, Repr::Int(8)));
    assert_eq!(d.size(), Ok(8));
    d.push(Fragment::SymbolRef(name));
    assert_eq!(d.size(), Ok(16));
    let mut packed = Declaration::new(name, Linkage::Export, 0);
    packed.push(Fragment::Zero(3));
    assert_eq!(packed.size(), Ok(3));
}

#[test]
fn declaration_size_errors() {
    let mut table = SymbolTable::new();
    let name = table.intern(NameKind::Global, "d");
    let mut d = Declaration::new(name, Linkage::Internal, 4);
    d.push(Fragment::Zero(u64::MAX));
    d.push(Fragment::Zero(1));
    assert_eq!(d.size(), Err(WellFormednessError::TooLarge));
    d.push(Fragment::Scalar(0, Repr::Float(1)));
    assert_eq!(d.size(), Err(WellFormednessError::UnsupportedWidth));
    let mut e = Declaration::new(name, Linkage::Internal, 16);
    e.push(Fragment::Zero(u64::MAX - 1));
    assert_eq!(e.size(), Err(WellFormednessError::TooLarge));
}
