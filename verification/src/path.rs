//! File paths: byte strings whose steps are separated by slashes, as on Unix.
//!
//! A slash is the only separator, and there are no drives: `C:` and `C:\Users` are names like any
//! other. Two spellings that differ in `\` and `/` are two paths here. What is joined on Windows is
//! joined by [`crate::windows_path`].
//!
//! Two spellings of a path can name the same place: `/a//b` and `/a/./b` both lead where `/a/b`
//! does. Comparing and ordering paths therefore goes by their components, never by their bytes.

use vstd::prelude::*;
#[allow(unused_imports)]
use vstd::utf8::encode_utf8;

use crate::bytes::{copy_range, pieces, same_bytes, split_bytes};
#[allow(unused_imports)]
use crate::bytes::byte_strings;

verus! {

/// The byte between the steps of a path.
pub const SLASH: u8 = 0x2f;

/// The byte that, alone, is the step to the same place and, doubled, the step to the parent.
pub const DOT: u8 = 0x2e;

/// One step of a path.
pub enum Component {
    /// The start of an absolute path.
    Root,
    /// A leading `.`.
    Here,
    /// A `..`.
    Parent,
    /// A step into the entry of that name.
    Named(Seq<u8>),
}

/// The step that a part of a path between two slashes stands for.
pub open spec fn step(piece: Seq<u8>) -> Component {
    if piece == seq![DOT, DOT] {
        Component::Parent
    } else {
        Component::Named(piece)
    }
}

/// Whether a part of a path between two slashes leads nowhere: it is empty or a `.`.
pub open spec fn is_idle(piece: Seq<u8>) -> bool {
    piece.len() == 0 || piece == seq![DOT]
}

/// The steps that the parts of a path stand for, without those that lead nowhere.
pub open spec fn steps(parts: Seq<Seq<u8>>) -> Seq<Component>
    decreases parts.len(),
{
    if parts.len() == 0 {
        Seq::empty()
    } else if is_idle(parts.last()) {
        steps(parts.drop_last())
    } else {
        steps(parts.drop_last()).push(step(parts.last()))
    }
}

/// Whether the path starts at the root.
pub open spec fn is_absolute(path: Seq<u8>) -> bool {
    path.len() > 0 && path[0] == SLASH
}

/// Whether the path starts with the step `.`.
pub open spec fn starts_here(path: Seq<u8>) -> bool {
    pieces(path, SLASH)[0] == seq![DOT]
}

/// Where a path starts from: the root, a leading `.`, or nothing that is written down.
pub open spec fn origin(path: Seq<u8>) -> Seq<Component> {
    if is_absolute(path) {
        seq![Component::Root]
    } else if starts_here(path) {
        seq![Component::Here]
    } else {
        Seq::empty()
    }
}

/// The components of a path: where it starts and each step from there.
pub open spec fn components(path: Seq<u8>) -> Seq<Component> {
    origin(path) + steps(pieces(path, SLASH))
}

/// Whether two paths have the same components, as Unix paths.
pub open spec fn same_path(a: Seq<u8>, b: Seq<u8>) -> bool {
    components(a) == components(b)
}

/// `relative` taken from `base`, as Unix paths. An absolute `relative` stands for itself.
pub open spec fn joined(base: Seq<u8>, relative: Seq<u8>) -> Seq<u8> {
    if is_absolute(relative) {
        relative
    } else if base.len() == 0 || base.last() == SLASH {
        base + relative
    } else {
        base.push(SLASH) + relative
    }
}

pub(crate) proof fn lemma_one_piece(b: Seq<u8>, sep: u8)
    requires
        !b.contains(sep),
    ensures
        pieces(b, sep) == seq![b],
    decreases b.len(),
{
    if b.len() > 0 {
        let init = b.drop_last();
        assert(!init.contains(sep)) by {
            if init.contains(sep) {
                let i = choose|i: int| 0 <= i < init.len() && init[i] == sep;
                assert(b[i] == sep);
            }
        }
        lemma_one_piece(init, sep);
        assert(b[b.len() - 1] == b.last());
        assert(init.push(b.last()) =~= b);
        assert(pieces(b, sep) =~= seq![b]);
    } else {
        assert(b =~= Seq::empty());
    }
}

/// A name without a slash is a path of one step, unless it is empty or made of dots.
pub proof fn law_name_is_one_step(name: Seq<u8>)
    requires
        !name.contains(SLASH),
        !is_idle(name),
        name != seq![DOT, DOT],
    ensures
        components(name) == seq![Component::Named(name)],
        !is_absolute(name),
        !starts_here(name),
{
    lemma_one_piece(name, SLASH);
    reveal_with_fuel(steps, 2);
    assert(pieces(name, SLASH).drop_last() =~= Seq::<Seq<u8>>::empty());
    assert(components(name) =~= seq![Component::Named(name)]);
    if is_absolute(name) {
        assert(name[0] == SLASH);
    }
}

/// Dictionary order: the first elements that differ decide, and a beginning comes first.
pub open spec fn dictionary<T>(a: Seq<T>, b: Seq<T>, less: spec_fn(T, T) -> bool) -> bool
    decreases a.len(),
{
    if b.len() == 0 {
        false
    } else if a.len() == 0 {
        true
    } else {
        less(a[0], b[0]) || (a[0] == b[0] && dictionary(a.skip(1), b.skip(1), less))
    }
}

/// Bytes in the order of their values.
pub open spec fn byte_order() -> spec_fn(u8, u8) -> bool {
    |x: u8, y: u8| x < y
}

/// The kinds of components in their order.
pub open spec fn kind(c: Component) -> int {
    match c {
        Component::Root => 0,
        Component::Here => 1,
        Component::Parent => 2,
        Component::Named(_) => 3,
    }
}

/// Components by kind, and named ones by the dictionary order of their names.
pub open spec fn component_order() -> spec_fn(Component, Component) -> bool {
    |x: Component, y: Component|
        kind(x) < kind(y) || (x is Named && y is Named && dictionary(x->Named_0, y->Named_0, byte_order()))
}

/// Whether path `a` comes before path `b`: the dictionary order of their components.
pub open spec fn path_before(a: Seq<u8>, b: Seq<u8>) -> bool {
    dictionary(components(a), components(b), component_order())
}

/// Whether an order is strict and decides between any two different values.
pub open spec fn is_strict_total<T>(less: spec_fn(T, T) -> bool) -> bool {
    &&& forall|x: T| !#[trigger] less(x, x)
    &&& forall|x: T, y: T| #[trigger] less(x, y) || x == y || less(y, x)
    &&& forall|x: T, y: T, z: T| #[trigger] less(x, y) && #[trigger] less(y, z) ==> less(x, z)
}

proof fn lemma_dictionary_irreflexive<T>(a: Seq<T>, less: spec_fn(T, T) -> bool)
    requires
        is_strict_total(less),
    ensures
        !dictionary(a, a, less),
    decreases a.len(),
{
    if a.len() > 0 {
        lemma_dictionary_irreflexive(a.skip(1), less);
    }
}

proof fn lemma_dictionary_total<T>(a: Seq<T>, b: Seq<T>, less: spec_fn(T, T) -> bool)
    requires
        is_strict_total(less),
    ensures
        dictionary(a, b, less) || a == b || dictionary(b, a, less),
    decreases a.len(),
{
    if a.len() > 0 && b.len() > 0 {
        assert(less(a[0], b[0]) || a[0] == b[0] || less(b[0], a[0]));
        lemma_dictionary_total(a.skip(1), b.skip(1), less);
        if a[0] == b[0] && a.skip(1) == b.skip(1) {
            assert(a == seq![a[0]] + a.skip(1));
            assert(b == seq![b[0]] + b.skip(1));
        }
    } else if a.len() == 0 && b.len() == 0 {
        assert(a == b);
    }
}

proof fn lemma_dictionary_transitive<T>(
    a: Seq<T>,
    b: Seq<T>,
    c: Seq<T>,
    less: spec_fn(T, T) -> bool,
)
    requires
        is_strict_total(less),
        dictionary(a, b, less),
        dictionary(b, c, less),
    ensures
        dictionary(a, c, less),
    decreases a.len(),
{
    if a.len() > 0 {
        if a[0] == b[0] && b[0] == c[0] && !less(a[0], b[0]) && !less(b[0], c[0]) {
            lemma_dictionary_transitive(a.skip(1), b.skip(1), c.skip(1), less);
        } else if less(a[0], b[0]) && less(b[0], c[0]) {
            assert(less(a[0], c[0]));
        }
    }
}

proof fn lemma_component_order_is_strict_total()
    ensures
        is_strict_total(byte_order()),
        is_strict_total(component_order()),
{
    let less = component_order();
    let bytes = byte_order();
    assert(is_strict_total(bytes));
    assert forall|x: Component| !#[trigger] less(x, x) by {
        if x is Named {
            lemma_dictionary_irreflexive(x->Named_0, bytes);
        }
    }
    assert forall|x: Component, y: Component| #[trigger] less(x, y) || x == y || less(y, x) by {
        if x is Named && y is Named {
            lemma_dictionary_total(x->Named_0, y->Named_0, bytes);
        }
    }
    assert forall|x: Component, y: Component, z: Component| #[trigger]
        less(x, y) && #[trigger] less(y, z) implies less(x, z) by {
        if x is Named && y is Named && z is Named {
            lemma_dictionary_transitive(x->Named_0, y->Named_0, z->Named_0, bytes);
        }
    }
}

/// The order of paths is irreflexive and transitive, and it decides between any two paths that are
/// not the same.
pub proof fn law_path_order_is_strict_total(a: Seq<u8>, b: Seq<u8>, c: Seq<u8>)
    ensures
        !path_before(a, a),
        path_before(a, b) || same_path(a, b) || path_before(b, a),
        path_before(a, b) && path_before(b, c) ==> path_before(a, c),
        path_before(a, b) ==> !path_before(b, a) && !same_path(a, b),
{
    lemma_component_order_is_strict_total();
    let less = component_order();
    lemma_dictionary_irreflexive(components(a), less);
    lemma_dictionary_total(components(a), components(b), less);
    if path_before(a, b) && path_before(b, c) {
        lemma_dictionary_transitive(components(a), components(b), components(c), less);
    }
    if path_before(a, b) && path_before(b, a) {
        lemma_dictionary_transitive(components(a), components(b), components(a), less);
    }
}

proof fn lemma_pieces_nonempty(b: Seq<u8>, sep: u8)
    ensures
        pieces(b, sep).len() >= 1,
    decreases b.len(),
{
    if b.len() > 0 {
        lemma_pieces_nonempty(b.drop_last(), sep);
    }
}

/// The parts around a separator are the parts before it and the parts after it.
pub proof fn law_pieces_around_a_separator(a: Seq<u8>, b: Seq<u8>, sep: u8)
    ensures
        pieces(a.push(sep) + b, sep) == pieces(a, sep) + pieces(b, sep),
    decreases b.len(),
{
    let whole = a.push(sep) + b;
    lemma_pieces_nonempty(b, sep);
    if b.len() == 0 {
        assert(whole == a.push(sep));
        assert(whole.drop_last() == a);
        assert(pieces(whole, sep) == pieces(a, sep) + pieces(b, sep));
    } else {
        let init = b.drop_last();
        law_pieces_around_a_separator(a, init, sep);
        lemma_pieces_nonempty(init, sep);
        assert(whole.drop_last() == a.push(sep) + init);
        assert(pieces(whole, sep) == pieces(a, sep) + pieces(b, sep));
    }
}

proof fn lemma_steps_concat(a: Seq<Seq<u8>>, b: Seq<Seq<u8>>)
    ensures
        steps(a + b) == steps(a) + steps(b),
    decreases b.len(),
{
    if b.len() == 0 {
        assert(a + b == a);
        assert(steps(a) + steps(b) == steps(a));
    } else {
        lemma_steps_concat(a, b.drop_last());
        assert((a + b).drop_last() == a + b.drop_last());
        assert(steps(a + b) == steps(a) + steps(b));
    }
}

/// Joining a relative path that names its first step keeps the components of the base and adds
/// the steps of the relative path.
pub proof fn law_join_appends_steps(base: Seq<u8>, relative: Seq<u8>)
    requires
        !is_absolute(relative),
        !starts_here(relative),
    ensures
        components(joined(base, relative)) == components(base) + components(relative),
{
    let whole = joined(base, relative);
    if base.len() == 0 {
        assert(whole == relative);
        assert(pieces(base, SLASH) == seq![Seq::<u8>::empty()]);
        reveal_with_fuel(steps, 2);
        assert(steps(pieces(base, SLASH)) == Seq::<Component>::empty());
        assert(components(base) == Seq::<Component>::empty());
        assert(components(base) + components(relative) == components(relative));
    } else {
        let stem = if base.last() == SLASH {
            base.drop_last()
        } else {
            base
        };
        assert(whole == stem.push(SLASH) + relative);
        law_pieces_around_a_separator(stem, relative, SLASH);
        lemma_steps_concat(pieces(stem, SLASH), pieces(relative, SLASH));
        lemma_pieces_nonempty(stem, SLASH);
        if base.last() == SLASH {
            let none = Seq::<u8>::empty();
            assert(base == stem.push(SLASH) + none);
            law_pieces_around_a_separator(stem, none, SLASH);
            lemma_steps_concat(pieces(stem, SLASH), pieces(none, SLASH));
            reveal_with_fuel(steps, 2);
            assert(steps(pieces(none, SLASH)) == Seq::<Component>::empty());
            assert(steps(pieces(base, SLASH)) == steps(pieces(stem, SLASH)));
            assert(pieces(base, SLASH)[0] == pieces(stem, SLASH)[0]);
        }
        assert(pieces(whole, SLASH)[0] == pieces(base, SLASH)[0]);
        assert(whole[0] == base[0]);
        assert(origin(whole) == origin(base));
        assert(origin(relative) == Seq::<Component>::empty());
        assert(components(relative) == steps(pieces(relative, SLASH)));
        assert(components(whole) == components(base) + components(relative));
    }
}

/// One step of a path, with its name at hand.
pub enum Part {
    /// The start of an absolute path.
    Root,
    /// A leading `.`.
    Here,
    /// A `..`.
    Parent,
    /// A step into the entry of that name.
    Named(Vec<u8>),
}

impl View for Part {
    type V = Component;

    open spec fn view(&self) -> Component {
        match self {
            Part::Root => Component::Root,
            Part::Here => Component::Here,
            Part::Parent => Component::Parent,
            Part::Named(name) => Component::Named(name@),
        }
    }
}

/// The components that a list of parts holds.
pub open spec fn parts_view(parts: Seq<Part>) -> Seq<Component> {
    parts.map_values(|p: Part| p@)
}

/// A file path.
#[derive(Debug)]
pub struct FilePath {
    bytes: Vec<u8>,
}

impl View for FilePath {
    type V = Seq<u8>;

    closed spec fn view(&self) -> Seq<u8> {
        self.bytes@
    }
}

impl Clone for FilePath {
    fn clone(&self) -> (copy: Self)
        ensures
            copy@ == self@,
    {
        FilePath { bytes: copy_range(self.bytes.as_slice(), 0, self.bytes.len()) }
    }
}

/// The paths that a list holds.
pub open spec fn paths_view(paths: Seq<FilePath>) -> Seq<Seq<u8>> {
    paths.map_values(|p: FilePath| p@)
}

/// The path that may be missing.
pub open spec fn opt_path(path: Option<FilePath>) -> Option<Seq<u8>> {
    match path {
        Some(path) => Some(path@),
        None => None,
    }
}

impl FilePath {
    /// The path with these bytes.
    pub fn from_bytes(bytes: Vec<u8>) -> (path: Self)
        ensures
            path@ == bytes@,
    {
        FilePath { bytes }
    }

    /// The path that `text` spells.
    pub fn from_text(text: &str) -> (path: Self)
        ensures
            path@ == encode_utf8(text@),
    {
        let bytes = text.as_bytes();
        FilePath { bytes: copy_range(bytes, 0, bytes.len()) }
    }

    /// The bytes of the path.
    pub fn as_bytes(&self) -> (bytes: &[u8])
        ensures
            bytes@ == self@,
    {
        self.bytes.as_slice()
    }

    /// `relative` taken from this path, as Unix paths.
    pub fn join(&self, relative: &str) -> (path: Self)
        ensures
            path@ == joined(self@, encode_utf8(relative@)),
    {
        let tail = relative.as_bytes();
        if tail.len() > 0 && tail[0] == SLASH {
            return FilePath::from_text(relative);
        }
        let mut bytes: Vec<u8> = copy_range(self.bytes.as_slice(), 0, self.bytes.len());
        if bytes.len() > 0 && bytes[bytes.len() - 1] != SLASH {
            bytes.push(SLASH);
        }
        let mut rest: Vec<u8> = copy_range(tail, 0, tail.len());
        bytes.append(&mut rest);
        FilePath { bytes }
    }

    /// The components of the path.
    pub fn components(&self) -> (parts: Vec<Part>)
        ensures
            parts_view(parts@) == components(self@),
    {
        let segments: Vec<Vec<u8>> = split_bytes(self.bytes.as_slice(), SLASH);
        let ghost texts = pieces(self@, SLASH);
        proof {
            lemma_pieces_nonempty(self@, SLASH);
        }
        assert(segments@.len() == texts.len());
        assert forall|k: int| 0 <= k < texts.len() implies #[trigger] segments@[k]@ == texts[k] by {
            assert(byte_strings(segments@)[k] == texts[k]);
        }
        let mut parts: Vec<Part> = Vec::new();
        if self.bytes.len() > 0 && self.bytes[0] == SLASH {
            parts.push(Part::Root);
        } else if is_dot(segments[0].as_slice()) {
            parts.push(Part::Here);
        }
        assert(parts_view(parts@) == origin(self@));
        let mut i: usize = 0;
        assert(steps(texts.take(0)) == Seq::<Component>::empty());
        assert(parts_view(parts@) == origin(self@) + steps(texts.take(0)));
        while i < segments.len()
            invariant
                i <= segments@.len() == texts.len(),
                forall|k: int| 0 <= k < texts.len() ==> #[trigger] segments@[k]@ == texts[k],
                parts_view(parts@) == origin(self@) + steps(texts.take(i as int)),
            decreases segments@.len() - i,
        {
            let ghost before = parts@;
            assert(texts.take(i + 1).drop_last() == texts.take(i as int));
            let segment = segments[i].as_slice();
            if segment.len() > 0 && !is_dot(segment) {
                let part = if is_dots(segment) {
                    Part::Parent
                } else {
                    Part::Named(copy_range(segment, 0, segment.len()))
                };
                assert(segment@.subrange(0, segment@.len() as int) == segment@);
                assert(part@ == step(texts[i as int]));
                parts.push(part);
                assert(parts_view(parts@) == parts_view(before).push(step(texts[i as int])));
                assert(steps(texts.take(i + 1)) == steps(texts.take(i as int)).push(
                    step(texts[i as int]),
                ));
                assert(parts_view(parts@) == origin(self@) + steps(texts.take(i + 1)));
            }
            i += 1;
        }
        assert(texts.take(i as int) == texts);
        parts
    }

    /// Whether both paths have the same components, as Unix paths.
    pub fn same_as(&self, other: &FilePath) -> (same: bool)
        ensures
            same == same_path(self@, other@),
    {
        let mine = self.components();
        let theirs = other.components();
        same_parts(mine.as_slice(), theirs.as_slice())
    }

    /// Whether this path comes before `other`.
    pub fn goes_before(&self, other: &FilePath) -> (before: bool)
        ensures
            before == path_before(self@, other@),
    {
        let mine = self.components();
        let theirs = other.components();
        parts_before(mine.as_slice(), theirs.as_slice())
    }
}

/// Whether the bytes are a single dot.
fn is_dot(piece: &[u8]) -> (dot: bool)
    ensures
        dot == (piece@ == seq![DOT]),
{
    let dot: bool = piece.len() == 1 && piece[0] == DOT;
    assert(dot ==> piece@ == seq![DOT]);
    dot
}

/// Whether the bytes are two dots.
fn is_dots(piece: &[u8]) -> (dots: bool)
    ensures
        dots == (piece@ == seq![DOT, DOT]),
{
    let dots: bool = piece.len() == 2 && piece[0] == DOT && piece[1] == DOT;
    assert(dots ==> piece@ == seq![DOT, DOT]);
    dots
}

/// Whether two parts are the same step.
fn same_part(a: &Part, b: &Part) -> (same: bool)
    ensures
        same == (a@ == b@),
{
    match (a, b) {
        (Part::Root, Part::Root) => true,
        (Part::Here, Part::Here) => true,
        (Part::Parent, Part::Parent) => true,
        (Part::Named(x), Part::Named(y)) => same_bytes(x.as_slice(), y.as_slice()),
        _ => false,
    }
}

/// Whether two lists of parts are the same steps.
fn same_parts(a: &[Part], b: &[Part]) -> (same: bool)
    ensures
        same == (parts_view(a@) == parts_view(b@)),
{
    if a.len() != b.len() {
        assert(parts_view(a@).len() != parts_view(b@).len());
        return false;
    }
    let mut i: usize = 0;
    while i < a.len()
        invariant
            i <= a@.len() == b@.len(),
            forall|k: int| 0 <= k < i ==> #[trigger] a@[k]@ == b@[k]@,
        decreases a@.len() - i,
    {
        if !same_part(&a[i], &b[i]) {
            assert(parts_view(a@)[i as int] != parts_view(b@)[i as int]);
            return false;
        }
        i += 1;
    }
    assert(parts_view(a@) == parts_view(b@));
    true
}

impl PartialEq for FilePath {
    /// Whether the two paths have the same components.
    fn eq(&self, other: &Self) -> (same: bool) {
        self.same_as(other)
    }
}

impl vstd::std_specs::cmp::PartialEqSpecImpl for FilePath {
    open spec fn obeys_eq_spec() -> bool {
        true
    }

    open spec fn eq_spec(&self, other: &Self) -> bool {
        same_path(self@, other@)
    }
}

impl Eq for FilePath {

}

/// The dictionary order is decided after what both begin with.
proof fn lemma_dictionary_after_common<T>(a: Seq<T>, b: Seq<T>, i: int, less: spec_fn(T, T) -> bool)
    requires
        0 <= i < a.len(),
        i < b.len(),
        a[i] == b[i],
        !less(a[i], b[i]),
    ensures
        dictionary(a.skip(i), b.skip(i), less) == dictionary(a.skip(i + 1), b.skip(i + 1), less),
{
    assert(a.skip(i).skip(1) == a.skip(i + 1));
    assert(b.skip(i).skip(1) == b.skip(i + 1));
}

/// Whether `a` comes before `b` in the dictionary order of bytes.
fn bytes_before(a: &[u8], b: &[u8]) -> (before: bool)
    ensures
        before == dictionary(a@, b@, byte_order()),
{
    let mut i: usize = 0;
    assert(a@.skip(0) == a@);
    assert(b@.skip(0) == b@);
    while i < a.len() && i < b.len()
        invariant
            i <= a@.len(),
            i <= b@.len(),
            dictionary(a@, b@, byte_order()) == dictionary(
                a@.skip(i as int),
                b@.skip(i as int),
                byte_order(),
            ),
        decreases a@.len() - i,
    {
        if a[i] != b[i] {
            return a[i] < b[i];
        }
        proof {
            lemma_dictionary_after_common(a@, b@, i as int, byte_order());
        }
        i += 1;
    }
    i < b.len()
}

/// The place of a part's kind in the order of kinds.
fn kind_of(part: &Part) -> (place: u8)
    ensures
        place == kind(part@),
{
    match part {
        Part::Root => 0,
        Part::Here => 1,
        Part::Parent => 2,
        Part::Named(_) => 3,
    }
}

/// Whether `a` comes before `b` in the order of components.
fn part_before(a: &Part, b: &Part) -> (before: bool)
    ensures
        before == component_order()(a@, b@),
{
    if kind_of(a) < kind_of(b) {
        return true;
    }
    match (a, b) {
        (Part::Named(x), Part::Named(y)) => bytes_before(x.as_slice(), y.as_slice()),
        _ => false,
    }
}

/// Whether `a` comes before `b` in the dictionary order of components.
fn parts_before(a: &[Part], b: &[Part]) -> (before: bool)
    ensures
        before == dictionary(parts_view(a@), parts_view(b@), component_order()),
{
    let ghost av = parts_view(a@);
    let ghost bv = parts_view(b@);
    let ghost less = component_order();
    proof {
        lemma_component_order_is_strict_total();
        assert(av.skip(0) == av);
        assert(bv.skip(0) == bv);
    }
    let mut i: usize = 0;
    while i < a.len() && i < b.len()
        invariant
            i <= a@.len(),
            i <= b@.len(),
            av == parts_view(a@),
            bv == parts_view(b@),
            less == component_order(),
            is_strict_total(less),
            dictionary(av, bv, less) == dictionary(av.skip(i as int), bv.skip(i as int), less),
        decreases a@.len() - i,
    {
        assert(av[i as int] == a@[i as int]@);
        assert(bv[i as int] == b@[i as int]@);
        if !same_part(&a[i], &b[i]) {
            return part_before(&a[i], &b[i]);
        }
        proof {
            assert(!less(av[i as int], av[i as int]));
            lemma_dictionary_after_common(av, bv, i as int, less);
        }
        i += 1;
    }
    i < b.len()
}

/// Whether `out` is `paths` in order with one path kept of those that are the same: the one that
/// came first.
pub open spec fn is_sorted_distinct(paths: Seq<Seq<u8>>, out: Seq<Seq<u8>>) -> bool {
    &&& forall|i: int, j: int|
        0 <= i < j < out.len() ==> path_before(#[trigger] out[i], #[trigger] out[j])
    &&& forall|j: int| 0 <= j < out.len() ==> is_first_of_its_kind(paths, #[trigger] out[j])
    &&& forall|i: int|
        0 <= i < paths.len() ==> holds_same(out, #[trigger] paths[i])
}

/// Whether `path` stands in `paths` with no path before it that is the same.
pub open spec fn is_first_of_its_kind(paths: Seq<Seq<u8>>, path: Seq<u8>) -> bool {
    exists|i: int|
        0 <= i < paths.len() && #[trigger] paths[i] == path && forall|k: int|
            0 <= k < i ==> !same_path(#[trigger] paths[k], path)
}

/// Whether one of `paths` is the same as `path`.
pub open spec fn holds_same(paths: Seq<Seq<u8>>, path: Seq<u8>) -> bool {
    exists|j: int| 0 <= j < paths.len() && same_path(#[trigger] paths[j], path)
}

/// [`is_sorted_distinct`] for values that are ordered by a key.
spec fn is_sorted_by_key<T, K>(
    all: Seq<T>,
    out: Seq<T>,
    key: spec_fn(T) -> K,
    less: spec_fn(K, K) -> bool,
) -> bool {
    &&& forall|i: int, j: int|
        0 <= i < j < out.len() ==> less(key(#[trigger] out[i]), key(#[trigger] out[j]))
    &&& forall|j: int| 0 <= j < out.len() ==> is_first_with_key(all, #[trigger] out[j], key)
    &&& forall|i: int| 0 <= i < all.len() ==> holds_key(out, key(#[trigger] all[i]), key)
}

spec fn is_first_with_key<T, K>(all: Seq<T>, value: T, key: spec_fn(T) -> K) -> bool {
    exists|i: int|
        0 <= i < all.len() && #[trigger] all[i] == value && forall|k: int|
            0 <= k < i ==> key(#[trigger] all[k]) != key(value)
}

spec fn holds_key<T, K>(out: Seq<T>, k: K, key: spec_fn(T) -> K) -> bool {
    exists|j: int| 0 <= j < out.len() && key(#[trigger] out[j]) == k
}

/// Two values with one key that both came first are one.
proof fn lemma_first_is_unique<T, K>(all: Seq<T>, a: T, b: T, key: spec_fn(T) -> K)
    requires
        is_first_with_key(all, a, key),
        is_first_with_key(all, b, key),
        key(a) == key(b),
    ensures
        a == b,
{
    let i = choose|i: int|
        0 <= i < all.len() && #[trigger] all[i] == a && forall|k: int|
            0 <= k < i ==> key(#[trigger] all[k]) != key(a);
    let j = choose|j: int|
        0 <= j < all.len() && #[trigger] all[j] == b && forall|k: int|
            0 <= k < j ==> key(#[trigger] all[k]) != key(b);
    if i < j {
        assert(key(all[i]) != key(b));
    } else if j < i {
        assert(key(all[j]) != key(a));
    }
}

/// What stands at `k` in `a` stands in `b` too, and not before `k` if the two agree up to there.
proof fn lemma_held_from<T, K>(
    all: Seq<T>,
    a: Seq<T>,
    b: Seq<T>,
    k: int,
    key: spec_fn(T) -> K,
    less: spec_fn(K, K) -> bool,
) -> (m: int)
    requires
        is_strict_total(less),
        is_sorted_by_key(all, a, key, less),
        is_sorted_by_key(all, b, key, less),
        0 <= k < a.len(),
        k <= b.len(),
        forall|j: int| 0 <= j < k ==> #[trigger] a[j] == b[j],
    ensures
        k <= m < b.len(),
        key(b[m]) == key(a[k]),
{
    assert(is_first_with_key(all, a[k], key));
    let i = choose|i: int| 0 <= i < all.len() && #[trigger] all[i] == a[k];
    assert(holds_key(b, key(all[i]), key));
    let m = choose|m: int| 0 <= m < b.len() && key(#[trigger] b[m]) == key(all[i]);
    if m < k {
        assert(a[m] == b[m]);
        assert(less(key(a[m]), key(a[k])));
    }
    m
}

proof fn lemma_sorted_agree<T, K>(
    all: Seq<T>,
    a: Seq<T>,
    b: Seq<T>,
    k: int,
    key: spec_fn(T) -> K,
    less: spec_fn(K, K) -> bool,
)
    requires
        is_strict_total(less),
        is_sorted_by_key(all, a, key, less),
        is_sorted_by_key(all, b, key, less),
        0 <= k <= a.len(),
        k <= b.len(),
    ensures
        forall|j: int| 0 <= j < k ==> #[trigger] a[j] == b[j],
    decreases k,
{
    if k > 0 {
        let last = k - 1;
        lemma_sorted_agree(all, a, b, last, key, less);
        let m = lemma_held_from(all, a, b, last, key, less);
        let n = lemma_held_from(all, b, a, last, key, less);
        if m > last {
            assert(less(key(b[last]), key(b[m])));
            if n > last {
                assert(less(key(a[last]), key(a[n])));
            }
            assert(false);
        }
        assert(is_first_with_key(all, a[last], key));
        assert(is_first_with_key(all, b[last], key));
        lemma_first_is_unique(all, a[last], b[last], key);
    }
}

proof fn lemma_sorting_is_unique<T, K>(
    all: Seq<T>,
    a: Seq<T>,
    b: Seq<T>,
    key: spec_fn(T) -> K,
    less: spec_fn(K, K) -> bool,
)
    requires
        is_strict_total(less),
        is_sorted_by_key(all, a, key, less),
        is_sorted_by_key(all, b, key, less),
        a.len() <= b.len(),
    ensures
        a == b,
{
    let k = a.len() as int;
    lemma_sorted_agree(all, a, b, k, key, less);
    if a.len() < b.len() {
        assert forall|j: int| 0 <= j < k implies #[trigger] b[j] == a[j] by {
            assert(a[j] == b[j]);
        }
        let m = lemma_held_from(all, b, a, k, key, less);
        assert(false);
    }
    assert(a =~= b);
}

proof fn lemma_sorted_by_components(paths: Seq<Seq<u8>>, out: Seq<Seq<u8>>)
    requires
        is_sorted_distinct(paths, out),
    ensures
        is_sorted_by_key(
            paths,
            out,
            |p: Seq<u8>| components(p),
            |x: Seq<Component>, y: Seq<Component>| dictionary(x, y, component_order()),
        ),
{
    let key = |p: Seq<u8>| components(p);
    let less = |x: Seq<Component>, y: Seq<Component>| dictionary(x, y, component_order());
    assert forall|i: int, j: int| 0 <= i < j < out.len() implies less(
        key(#[trigger] out[i]),
        key(#[trigger] out[j]),
    ) by {
        assert(path_before(out[i], out[j]));
    }
    assert forall|j: int| 0 <= j < out.len() implies is_first_with_key(paths, #[trigger] out[j], key) by {
        assert(is_first_of_its_kind(paths, out[j]));
        let i = choose|i: int|
            0 <= i < paths.len() && #[trigger] paths[i] == out[j] && forall|k: int|
                0 <= k < i ==> !same_path(#[trigger] paths[k], out[j]);
        assert(paths[i] == out[j]);
        assert forall|k: int| 0 <= k < i implies key(#[trigger] paths[k]) != key(out[j]) by {
            assert(!same_path(paths[k], out[j]));
        }
    }
    assert forall|i: int| 0 <= i < paths.len() implies holds_key(out, key(#[trigger] paths[i]), key) by {
        assert(holds_same(out, paths[i]));
        let j = choose|j: int| 0 <= j < out.len() && same_path(#[trigger] out[j], paths[i]);
        assert(key(out[j]) == key(paths[i]));
    }
}

proof fn lemma_components_order_is_strict_total()
    ensures
        is_strict_total(
            |x: Seq<Component>, y: Seq<Component>| dictionary(x, y, component_order()),
        ),
{
    let less = |x: Seq<Component>, y: Seq<Component>| dictionary(x, y, component_order());
    lemma_component_order_is_strict_total();
    assert forall|x: Seq<Component>| !#[trigger] less(x, x) by {
        lemma_dictionary_irreflexive(x, component_order());
    }
    assert forall|x: Seq<Component>, y: Seq<Component>| #[trigger] less(x, y) || x == y || less(y, x) by {
        lemma_dictionary_total(x, y, component_order());
    }
    assert forall|x: Seq<Component>, y: Seq<Component>, z: Seq<Component>| #[trigger]
        less(x, y) && #[trigger] less(y, z) implies less(x, z) by {
        lemma_dictionary_transitive(x, y, z, component_order());
    }
}

/// There is only one way to sort paths and drop those that are the same as an earlier one.
pub proof fn law_sorting_is_unique(paths: Seq<Seq<u8>>, a: Seq<Seq<u8>>, b: Seq<Seq<u8>>)
    requires
        is_sorted_distinct(paths, a),
        is_sorted_distinct(paths, b),
    ensures
        a == b,
{
    let key = |p: Seq<u8>| components(p);
    let less = |x: Seq<Component>, y: Seq<Component>| dictionary(x, y, component_order());
    lemma_components_order_is_strict_total();
    lemma_sorted_by_components(paths, a);
    lemma_sorted_by_components(paths, b);
    if a.len() <= b.len() {
        lemma_sorting_is_unique(paths, a, b, key, less);
    } else {
        lemma_sorting_is_unique(paths, b, a, key, less);
    }
}

/// Sorts paths and keeps, of those that are the same, the one that came first.
pub fn sorted_distinct(paths: &[FilePath]) -> (out: Vec<FilePath>)
    ensures
        is_sorted_distinct(paths_view(paths@), paths_view(out@)),
{
    let ghost all = paths_view(paths@);
    let mut out: Vec<FilePath> = Vec::new();
    let mut i: usize = 0;
    while i < paths.len()
        invariant
            i <= paths@.len(),
            all == paths_view(paths@),
            is_sorted_distinct(all.take(i as int), paths_view(out@)),
        decreases paths@.len() - i,
    {
        let path = &paths[i];
        let ghost seen = all.take(i as int);
        let ghost before = paths_view(out@);
        let mut at: usize = 0;
        while at < out.len() && out[at].goes_before(path)
            invariant
                at <= out@.len(),
                path == paths@[i as int],
                before == paths_view(out@),
                forall|k: int| 0 <= k < at ==> path_before(#[trigger] before[k], path@),
            decreases out@.len() - at,
        {
            assert(before[at as int] == out@[at as int]@);
            at += 1;
        }
        assert(all[i as int] == path@);
        assert(all.take(i + 1) == seen.push(path@));
        if at < out.len() && out[at].same_as(path) {
            assert(before[at as int] == out@[at as int]@);
            proof {
                lemma_known_path(seen, before, path@, at as int);
            }
        } else {
            out.insert(at, path.clone());
            assert(paths_view(out@) == before.insert(at as int, path@));
            proof {
                if at < before.len() {
                    law_path_order_is_strict_total(before[at as int], path@, path@);
                }
                lemma_new_path(seen, before, path@, at as int);
            }
        }
        i += 1;
    }
    assert(all.take(i as int) == all);
    out
}

/// A path that is already held changes nothing.
proof fn lemma_known_path(seen: Seq<Seq<u8>>, out: Seq<Seq<u8>>, path: Seq<u8>, at: int)
    requires
        is_sorted_distinct(seen, out),
        0 <= at < out.len(),
        same_path(out[at], path),
    ensures
        is_sorted_distinct(seen.push(path), out),
{
    let all = seen.push(path);
    assert forall|j: int| 0 <= j < out.len() implies is_first_of_its_kind(all, #[trigger] out[j]) by {
        assert(is_first_of_its_kind(seen, out[j]));
        lemma_first_stays_first(seen, path, out[j]);
    }
    assert forall|i: int| 0 <= i < all.len() implies holds_same(out, #[trigger] all[i]) by {
        if i < seen.len() {
            assert(holds_same(out, seen[i]));
        } else {
            assert(same_path(out[at], all[i]));
        }
    }
}

/// A new path goes between those before it and those after it.
#[verifier::spinoff_prover]
proof fn lemma_new_path(seen: Seq<Seq<u8>>, out: Seq<Seq<u8>>, path: Seq<u8>, at: int)
    requires
        is_sorted_distinct(seen, out),
        0 <= at <= out.len(),
        forall|k: int| 0 <= k < at ==> path_before(#[trigger] out[k], path),
        at < out.len() ==> path_before(path, out[at]),
    ensures
        is_sorted_distinct(seen.push(path), out.insert(at, path)),
{
    let all = seen.push(path);
    let next = out.insert(at, path);
    lemma_insertion_keeps_order(out, path, at);
    assert forall|j: int| 0 <= j < next.len() implies is_first_of_its_kind(all, #[trigger] next[j]) by {
        if j == at {
            lemma_unheld_is_first(seen, out, path, at);
        } else {
            let old_at = if j < at { j } else { j - 1 };
            assert(next[j] == out[old_at]);
            assert(is_first_of_its_kind(seen, out[old_at]));
            lemma_first_stays_first(seen, path, out[old_at]);
        }
    }
    assert forall|i: int| 0 <= i < all.len() implies holds_same(next, #[trigger] all[i]) by {
        if i < seen.len() {
            assert(holds_same(out, seen[i]));
            lemma_insertion_keeps_holding(out, path, at, seen[i]);
        } else {
            assert(next[at] == path);
        }
    }
}

proof fn lemma_insertion_keeps_holding(out: Seq<Seq<u8>>, path: Seq<u8>, at: int, held: Seq<u8>)
    requires
        holds_same(out, held),
        0 <= at <= out.len(),
    ensures
        holds_same(out.insert(at, path), held),
{
    let next = out.insert(at, path);
    let j = choose|j: int| 0 <= j < out.len() && same_path(#[trigger] out[j], held);
    let k = if j < at { j } else { j + 1 };
    assert(next[k] == out[j]);
}

#[verifier::spinoff_prover]
proof fn lemma_insertion_keeps_order(out: Seq<Seq<u8>>, path: Seq<u8>, at: int)
    requires
        forall|i: int, j: int|
            0 <= i < j < out.len() ==> path_before(#[trigger] out[i], #[trigger] out[j]),
        0 <= at <= out.len(),
        forall|k: int| 0 <= k < at ==> path_before(#[trigger] out[k], path),
        at < out.len() ==> path_before(path, out[at]),
    ensures
        forall|k: int| at <= k < out.len() ==> path_before(path, #[trigger] out[k]),
        forall|i: int, j: int|
            0 <= i < j < out.insert(at, path).len() ==> path_before(
                #[trigger] out.insert(at, path)[i],
                #[trigger] out.insert(at, path)[j],
            ),
{
    let next = out.insert(at, path);
    assert forall|k: int| at <= k < out.len() implies path_before(path, #[trigger] out[k]) by {
        if k > at {
            law_path_order_is_strict_total(path, out[at], out[k]);
        }
    }
    assert forall|i: int, j: int| 0 <= i < j < next.len() implies path_before(
        #[trigger] next[i],
        #[trigger] next[j],
    ) by {
        let a = if i < at { i } else { i - 1 };
        let b = if j < at { j } else { j - 1 };
        if i != at && j != at {
            assert(path_before(out[a], out[b]));
        }
    }
}

/// A path that has its place between held ones is not the same as any path those stand for.
proof fn lemma_unheld_path(out: Seq<Seq<u8>>, held: Seq<u8>, path: Seq<u8>, at: int)
    requires
        holds_same(out, held),
        0 <= at <= out.len(),
        forall|k: int| 0 <= k < at ==> path_before(#[trigger] out[k], path),
        forall|k: int| at <= k < out.len() ==> path_before(path, #[trigger] out[k]),
    ensures
        !same_path(held, path),
{
    let j = choose|j: int| 0 <= j < out.len() && same_path(#[trigger] out[j], held);
    law_path_order_is_strict_total(out[j], path, path);
    law_path_order_is_strict_total(path, out[j], path);
}

/// A path that has its place between held ones is the first of its kind.
proof fn lemma_unheld_is_first(seen: Seq<Seq<u8>>, out: Seq<Seq<u8>>, path: Seq<u8>, at: int)
    requires
        forall|i: int| 0 <= i < seen.len() ==> holds_same(out, #[trigger] seen[i]),
        0 <= at <= out.len(),
        forall|k: int| 0 <= k < at ==> path_before(#[trigger] out[k], path),
        forall|k: int| at <= k < out.len() ==> path_before(path, #[trigger] out[k]),
    ensures
        is_first_of_its_kind(seen.push(path), path),
{
    let all = seen.push(path);
    assert(all[seen.len() as int] == path);
    assert forall|k: int| 0 <= k < seen.len() implies !same_path(#[trigger] all[k], path) by {
        assert(all[k] == seen[k]);
        lemma_unheld_path(out, seen[k], path, at);
    }
}

proof fn lemma_first_stays_first(seen: Seq<Seq<u8>>, path: Seq<u8>, first: Seq<u8>)
    requires
        is_first_of_its_kind(seen, first),
    ensures
        is_first_of_its_kind(seen.push(path), first),
{
    let all = seen.push(path);
    let i = choose|i: int|
        0 <= i < seen.len() && #[trigger] seen[i] == first && forall|k: int|
            0 <= k < i ==> !same_path(#[trigger] seen[k], first);
    assert(all[i] == first);
    assert forall|k: int| 0 <= k < i implies !same_path(#[trigger] all[k], first) by {
        assert(all[k] == seen[k]);
    }
}

/// Whether two lists agree on their first `k` elements.
pub open spec fn agree_up_to<T>(a: Seq<T>, b: Seq<T>, k: int) -> bool {
    0 <= k <= a.len() && k <= b.len() && forall|i: int| 0 <= i < k ==> #[trigger] a[i] == b[i]
}

/// Whether a step comes before another: the root before a leading `.`, this before a `..`, this
/// before a name, and names by the value of the first byte in which they differ.
pub open spec fn step_before(x: Component, y: Component) -> bool {
    match (x, y) {
        (Component::Root, Component::Root) => false,
        (Component::Root, _) => true,
        (Component::Here, Component::Parent) => true,
        (Component::Here, Component::Named(_)) => true,
        (Component::Parent, Component::Named(_)) => true,
        (Component::Named(a), Component::Named(b)) => exists|k: int| #[trigger]
            agree_up_to(a, b, k) && k < b.len() && (k == a.len() || a[k] < b[k]),
        _ => false,
    }
}

proof fn lemma_dictionary_is_decided_at<T>(a: Seq<T>, b: Seq<T>, less: spec_fn(T, T) -> bool)
    ensures
        dictionary(a, b, less) <==> exists|k: int| #[trigger]
            agree_up_to(a, b, k) && k < b.len() && (k == a.len() || less(a[k], b[k])),
    decreases a.len(),
{
    if b.len() > 0 && a.len() == 0 {
        assert(agree_up_to(a, b, 0));
    } else if b.len() > 0 {
        let (c, d) = (a.skip(1), b.skip(1));
        lemma_dictionary_is_decided_at(c, d, less);
        if less(a[0], b[0]) {
            assert(agree_up_to(a, b, 0));
        } else if dictionary(a, b, less) {
            let k = choose|k: int| #[trigger]
                agree_up_to(c, d, k) && k < d.len() && (k == c.len() || less(c[k], d[k]));
            assert forall|i: int| 0 <= i < k + 1 implies #[trigger] a[i] == b[i] by {
                if i > 0 {
                    assert(c[i - 1] == d[i - 1]);
                }
            }
            assert(agree_up_to(a, b, k + 1));
        }
        if exists|k: int| #[trigger]
            agree_up_to(a, b, k) && k < b.len() && (k == a.len() || less(a[k], b[k])) {
            let k = choose|k: int| #[trigger]
                agree_up_to(a, b, k) && k < b.len() && (k == a.len() || less(a[k], b[k]));
            if k > 0 {
                assert(a[0] == b[0]);
                assert forall|i: int| 0 <= i < k - 1 implies #[trigger] c[i] == d[i] by {
                    assert(a[i + 1] == b[i + 1]);
                }
                assert(agree_up_to(c, d, k - 1));
            }
        }
    }
}

/// The first step in which two paths differ decides which comes first. One that leads on from the
/// other comes after it.
pub proof fn law_first_difference_orders_paths(a: Seq<u8>, b: Seq<u8>)
    ensures
        path_before(a, b) <==> exists|k: int| #[trigger]
            agree_up_to(components(a), components(b), k) && k < components(b).len() && (k == components(
                a,
            ).len() || step_before(components(a)[k], components(b)[k])),
{
    let less = component_order();
    lemma_dictionary_is_decided_at(components(a), components(b), less);
    assert forall|x: Component, y: Component| #[trigger] less(x, y) == step_before(x, y) by {
        if x is Named && y is Named {
            lemma_dictionary_is_decided_at(x->Named_0, y->Named_0, byte_order());
        }
    }
}

/// Two paths are the same exactly if they lead through the same steps.
pub proof fn law_same_paths_take_the_same_steps(a: Seq<u8>, b: Seq<u8>)
    ensures
        same_path(a, b) <==> components(a).len() == components(b).len() && agree_up_to(
            components(a),
            components(b),
            components(a).len() as int,
        ),
{
    if components(a).len() == components(b).len() && agree_up_to(
        components(a),
        components(b),
        components(a).len() as int,
    ) {
        assert(components(a) =~= components(b));
    }
}

/// Joining keeps both paths, with one slash between them where the base needs one. An absolute path
/// stands for itself.
pub proof fn law_join_keeps_both_paths(base: Seq<u8>, relative: Seq<u8>)
    ensures
        ({
            let whole = joined(base, relative);
            let gap = whole.len() - base.len() - relative.len();
            if relative.len() > 0 && relative[0] == SLASH {
                whole == relative
            } else {
                &&& whole.take(base.len() as int) == base
                &&& whole.skip(whole.len() - relative.len()) == relative
                &&& gap == 0 || (gap == 1 && whole[base.len() as int] == SLASH)
                &&& gap == 1 <==> base.len() > 0 && base[base.len() - 1] != SLASH
            }
        }),
{
    let whole = joined(base, relative);
    if !(relative.len() > 0 && relative[0] == SLASH) {
        assert(whole.take(base.len() as int) =~= base);
        assert(whole.skip(whole.len() - relative.len()) =~= relative);
    }
}

/// Joining `..` adds the step to the parent.
pub proof fn law_joined_dots_lead_to_the_parent(base: Seq<u8>)
    ensures
        components(joined(base, seq![DOT, DOT])) == components(base).push(Component::Parent),
{
    let dots = seq![DOT, DOT];
    assert(!dots.contains(SLASH));
    lemma_one_piece(dots, SLASH);
    assert(dots.len() == 2);
    assert(!is_absolute(dots));
    assert(seq![DOT].len() == 1);
    assert(!starts_here(dots));
    law_join_appends_steps(base, dots);
    reveal_with_fuel(steps, 2);
    assert(pieces(dots, SLASH).drop_last() =~= Seq::<Seq<u8>>::empty());
    assert(components(dots) =~= seq![Component::Parent]);
    assert(components(base) + components(dots) =~= components(base).push(Component::Parent));
}

/// A second slash, a `.` between slashes and a slash at the end lead nowhere.
pub proof fn law_idle_steps_do_not_count(a: Seq<u8>, b: Seq<u8>)
    ensures
        same_path(a.push(SLASH).push(SLASH) + b, a.push(SLASH) + b),
        same_path(a.push(SLASH).push(DOT).push(SLASH) + b, a.push(SLASH) + b),
        a.len() > 0 ==> same_path(a.push(SLASH), a),
{
    let none = Seq::<u8>::empty();
    let dot = seq![DOT];
    let plain = a.push(SLASH) + b;
    let doubled = a.push(SLASH).push(SLASH) + b;
    let dotted = a.push(SLASH).push(DOT).push(SLASH) + b;
    reveal_with_fuel(steps, 2);
    lemma_pieces_nonempty(a, SLASH);
    law_pieces_around_a_separator(a, b, SLASH);
    lemma_steps_concat(pieces(a, SLASH), pieces(b, SLASH));

    assert(a.push(SLASH) =~= a.push(SLASH) + none);
    law_pieces_around_a_separator(a, none, SLASH);
    assert(pieces(none, SLASH) =~= seq![none]);
    lemma_steps_concat(pieces(a, SLASH), pieces(none, SLASH));
    assert(seq![none].drop_last() =~= Seq::<Seq<u8>>::empty());
    assert(steps(pieces(none, SLASH)) =~= Seq::<Component>::empty());
    assert(steps(pieces(a.push(SLASH), SLASH)) =~= steps(pieces(a, SLASH)));
    assert(pieces(a.push(SLASH), SLASH)[0] == pieces(a, SLASH)[0]);
    law_pieces_around_a_separator(a.push(SLASH), b, SLASH);
    lemma_steps_concat(pieces(a.push(SLASH), SLASH), pieces(b, SLASH));
    assert(origin(doubled) == origin(plain)) by {
        assert(pieces(doubled, SLASH)[0] == pieces(a, SLASH)[0]);
        assert(pieces(plain, SLASH)[0] == pieces(a, SLASH)[0]);
        assert(doubled[0] == plain[0]);
    }
    assert(components(doubled) =~= components(plain));

    let stem = a.push(SLASH).push(DOT);
    assert(stem =~= a.push(SLASH) + dot);
    law_pieces_around_a_separator(a, dot, SLASH);
    assert(!dot.contains(SLASH));
    lemma_one_piece(dot, SLASH);
    lemma_steps_concat(pieces(a, SLASH), pieces(dot, SLASH));
    assert(seq![dot].drop_last() =~= Seq::<Seq<u8>>::empty());
    assert(steps(pieces(dot, SLASH)) =~= Seq::<Component>::empty());
    assert(steps(pieces(stem, SLASH)) =~= steps(pieces(a, SLASH)));
    law_pieces_around_a_separator(stem, b, SLASH);
    lemma_steps_concat(pieces(stem, SLASH), pieces(b, SLASH));
    assert(origin(dotted) == origin(plain)) by {
        assert(pieces(dotted, SLASH)[0] == pieces(a, SLASH)[0]);
        assert(pieces(plain, SLASH)[0] == pieces(a, SLASH)[0]);
        assert(dotted[0] == plain[0]);
    }
    assert(components(dotted) =~= components(plain));

    if a.len() > 0 {
        assert(a.push(SLASH)[0] == a[0]);
        assert(components(a.push(SLASH)) =~= components(a));
    }
}

/// The first part is what stands before the first separator.
proof fn lemma_first_piece_ends_at_separator(b: Seq<u8>, sep: u8)
    ensures
        ({
            let first = pieces(b, sep)[0];
            &&& pieces(b, sep).len() >= 1
            &&& first.len() <= b.len()
            &&& b.take(first.len() as int) == first
            &&& !first.contains(sep)
            &&& first.len() < b.len() ==> b[first.len() as int] == sep
            &&& pieces(b, sep).len() == 1 ==> first == b
            &&& pieces(b, sep).len() > 1 ==> first.len() < b.len()
        }),
    decreases b.len(),
{
    let first = pieces(b, sep)[0];
    if b.len() > 0 {
        let init = b.drop_last();
        lemma_first_piece_ends_at_separator(init, sep);
        let before = pieces(init, sep)[0];
        assert(init.push(b.last()) =~= b);
        if pieces(init, sep).len() == 1 && b.last() != sep {
            assert(first =~= b);
            assert(!first.contains(sep)) by {
                if first.contains(sep) {
                    let i = choose|i: int| 0 <= i < first.len() && first[i] == sep;
                    assert(before[i] == sep);
                }
            }
        } else {
            assert(first == before);
            assert(b.take(first.len() as int) =~= init.take(first.len() as int));
        }
    } else {
        assert(b =~= Seq::empty());
        assert(b.take(0) =~= first);
    }
}

/// Steps lead to a parent or into a name that is not empty and holds no slash.
proof fn lemma_steps_lead_on(parts: Seq<Seq<u8>>)
    ensures
        forall|i: int|
            0 <= i < steps(parts).len() ==> (#[trigger] steps(parts)[i] is Parent || steps(parts)[i] is Named),
    decreases parts.len(),
{
    if parts.len() > 0 {
        lemma_steps_lead_on(parts.drop_last());
    }
}

/// A path starts at the root exactly if it begins with a slash, and at a leading `.` exactly if it is
/// `.` or begins with `./`. Neither stands later in a path. The path of a single slash leads nowhere
/// but to the root, and the empty path nowhere at all.
pub proof fn law_path_starts_where_it_says(path: Seq<u8>)
    ensures
        components(path).len() > 0 && components(path)[0] is Root <==> path.len() > 0 && path[0] == SLASH,
        components(path).len() > 0 && components(path)[0] is Here <==> path.len() > 0 && path[0] == DOT
            && (path.len() == 1 || path[1] == SLASH),
        forall|i: int|
            0 < i < components(path).len() ==> (#[trigger] components(path)[i] is Parent
                || components(path)[i] is Named),
        components(seq![SLASH]) == seq![Component::Root],
        components(Seq::<u8>::empty()) == Seq::<Component>::empty(),
{
    let parts = pieces(path, SLASH);
    let first = parts[0];
    lemma_steps_lead_on(parts);
    lemma_first_piece_ends_at_separator(path, SLASH);
    if starts_here(path) {
        assert(first[0] == DOT);
        assert(path.take(1)[0] == DOT);
    }
    if path.len() > 0 && path[0] == DOT && (path.len() == 1 || path[1] == SLASH) {
        if first.len() > 1 {
            assert(first[1] == path.take(first.len() as int)[1]);
            assert(first.contains(SLASH));
        }
        assert(first.len() == 1);
        assert(first[0] == path.take(1)[0]);
        assert(first =~= seq![DOT]);
    }
    reveal_with_fuel(steps, 3);
    reveal_with_fuel(pieces, 3);
    let none = Seq::<u8>::empty();
    assert(pieces(none, SLASH) =~= seq![none]);
    assert(seq![none].drop_last() =~= Seq::<Seq<u8>>::empty());
    assert(steps(pieces(none, SLASH)) =~= Seq::<Component>::empty());
    assert(components(none) =~= Seq::<Component>::empty()) by {
        assert(none.len() != seq![DOT].len());
    }
    let root = seq![SLASH];
    assert(root =~= none.push(SLASH) + none);
    law_pieces_around_a_separator(none, none, SLASH);
    lemma_steps_concat(pieces(none, SLASH), pieces(none, SLASH));
    assert(steps(pieces(root, SLASH)) =~= Seq::<Component>::empty());
    assert(components(root) =~= seq![Component::Root]);
}

/// Sorting makes up no path and loses none: each path in the result is one of the given ones, just as
/// it was spelled, and for each given path the result holds exactly one that is the same, spelled as
/// it was given first. They stand in order.
pub proof fn law_sorting_keeps_every_path(paths: Seq<Seq<u8>>, out: Seq<Seq<u8>>)
    requires
        is_sorted_distinct(paths, out),
    ensures
        forall|j: int| 0 <= j < out.len() ==> paths.contains(#[trigger] out[j]),
        forall|i: int|
            0 <= i < paths.len() ==> out.map_values(|p: Seq<u8>| components(p)).contains(
                components(#[trigger] paths[i]),
            ),
        forall|i: int|
            0 <= i < paths.len() && (forall|k: int|
                0 <= k < i ==> components(#[trigger] paths[k]) != components(paths[i]))
                ==> out.contains(#[trigger] paths[i]),
        forall|i: int, j: int|
            0 <= i < j < out.len() ==> path_before(#[trigger] out[i], #[trigger] out[j]) && components(
                out[i],
            ) != components(out[j]),
{
    assert forall|j: int| 0 <= j < out.len() implies paths.contains(#[trigger] out[j]) by {
        assert(is_first_of_its_kind(paths, out[j]));
    }
    let taken = out.map_values(|p: Seq<u8>| components(p));
    assert forall|i: int| 0 <= i < paths.len() implies taken.contains(components(#[trigger] paths[i])) by {
        assert(holds_same(out, paths[i]));
        let j = choose|j: int| 0 <= j < out.len() && same_path(#[trigger] out[j], paths[i]);
        assert(taken[j] == components(paths[i]));
    }
    assert forall|i: int|
        0 <= i < paths.len() && (forall|k: int|
            0 <= k < i ==> components(#[trigger] paths[k]) != components(paths[i])) implies out.contains(
        #[trigger] paths[i],
    ) by {
        assert(holds_same(out, paths[i]));
        let j = choose|j: int| 0 <= j < out.len() && same_path(#[trigger] out[j], paths[i]);
        assert(is_first_of_its_kind(paths, out[j]));
        let first = choose|f: int|
            0 <= f < paths.len() && #[trigger] paths[f] == out[j] && forall|k: int|
                0 <= k < f ==> !same_path(#[trigger] paths[k], out[j]);
        if first < i {
            assert(components(paths[first]) != components(paths[i]));
        } else if i < first {
            assert(!same_path(paths[i], out[j]));
        }
        assert(out[j] == paths[i]);
    }
    assert forall|i: int, j: int| 0 <= i < j < out.len() implies path_before(
        #[trigger] out[i],
        #[trigger] out[j],
    ) && components(out[i]) != components(out[j]) by {
        law_path_order_is_strict_total(out[i], out[j], out[j]);
    }
}

} // verus!
