//! Normalized, absolute, unix-style virtual filesystem paths.

use crate::error::FvfsError;
use crate::text::chars_of;
use crate::text::concat2;
use crate::text::concat3;
use crate::text::split;
use crate::text::string_of;
use vstd::prelude::*;
use vstd::string::StrSliceExecFns;
use vstd::string::StringExecFns;

verus! {

// ---------------------------------------------------------------------------
// Vocabulary

/// A segment that can stand in a normalized path.
pub open spec fn valid_component(c: Seq<char>) -> bool {
    &&& c.len() > 0
    &&& !c.contains('/')
    &&& !c.contains('\0')
    &&& c != seq!['.']
    &&& c != seq!['.', '.']
}

/// Every segment of the list can stand in a normalized path.
pub open spec fn valid_components(cs: Seq<Seq<char>>) -> bool {
    forall|i: int| 0 <= i < cs.len() ==> valid_component(#[trigger] cs[i])
}

/// The effect of one raw segment on the segments before it: empty ones and `.`
/// vanish, `..` takes the last one away, and any other is added.
pub open spec fn apply_part(stack: Seq<Seq<char>>, part: Seq<char>) -> Seq<Seq<char>> {
    if part.len() == 0 || part == seq!['.'] {
        stack
    } else if part == seq!['.', '.'] {
        if stack.len() == 0 {
            stack
        } else {
            stack.drop_last()
        }
    } else {
        stack.push(part)
    }
}

/// The segments that are left when `parts` are applied in order to `stack`.
pub open spec fn resolve_from(stack: Seq<Seq<char>>, parts: Seq<Seq<char>>) -> Seq<Seq<char>>
    decreases parts.len(),
{
    if parts.len() == 0 {
        stack
    } else {
        apply_part(resolve_from(stack, parts.drop_last()), parts.last())
    }
}

/// The segments that the text `s` names from the root.
pub open spec fn components(s: Seq<char>) -> Seq<Seq<char>> {
    resolve_from(Seq::empty(), split(s, '/'))
}

/// The segments, each with a slash in front of it.
pub open spec fn slashed(cs: Seq<Seq<char>>) -> Seq<char>
    decreases cs.len(),
{
    if cs.len() == 0 {
        Seq::empty()
    } else {
        slashed(cs.drop_last()) + seq!['/'] + cs.last()
    }
}

/// The path that the segments spell: the root when there are none.
pub open spec fn render(cs: Seq<Seq<char>>) -> Seq<char> {
    if cs.len() == 0 {
        seq!['/']
    } else {
        slashed(cs)
    }
}

/// The normalized path that the text `s` names.
pub open spec fn normal_form(s: Seq<char>) -> Seq<char> {
    render(components(s))
}

/// `s` is a normalized path.
pub open spec fn valid_path(s: Seq<char>) -> bool {
    exists|cs: Seq<Seq<char>>| valid_components(cs) && s == #[trigger] render(cs)
}

/// The text can be made a path: it is not empty and holds no null character.
pub open spec fn nameable(s: Seq<char>) -> bool {
    s.len() > 0 && !s.contains('\0')
}

/// The path one level up; none above the root.
pub open spec fn parent_of(p: Seq<char>) -> Option<Seq<char>> {
    if components(p).len() == 0 {
        None
    } else {
        Some(render(components(p).drop_last()))
    }
}

/// The last segment; the root names itself.
pub open spec fn file_name_of(p: Seq<char>) -> Seq<char> {
    if components(p).len() == 0 {
        seq!['/']
    } else {
        components(p).last()
    }
}

/// The text of `segment` written below the path `p`.
pub open spec fn below(p: Seq<char>, segment: Seq<char>) -> Seq<char> {
    if p == seq!['/'] {
        p + segment
    } else {
        p + seq!['/'] + segment
    }
}

/// The path `p` is `q` or an ancestor of it.
pub open spec fn path_prefix(p: Seq<char>, q: Seq<char>) -> bool {
    components(p).is_prefix_of(components(q))
}

// ---------------------------------------------------------------------------
// Facts about splitting and resolving

/// Splitting yields at least one piece, and no piece holds the separator.
pub proof fn lemma_split_pieces(s: Seq<char>, sep: char)
    ensures
        split(s, sep).len() > 0,
        forall|i: int| 0 <= i < split(s, sep).len() ==> !(#[trigger] split(s, sep)[i]).contains(sep),
        forall|i: int, c: char|
            0 <= i < split(s, sep).len() && (#[trigger] split(s, sep)[i].contains(c)) ==> s.contains(c),
    decreases s.len(),
{
    if s.len() > 0 {
        let t = s.drop_last();
        lemma_split_pieces(t, sep);
        let before = split(t, sep);
        let all = split(s, sep);
        assert forall|i: int, c: char| 0 <= i < all.len() && (#[trigger] all[i].contains(c)) implies s.contains(c) && c != sep by {
            if i < before.len() && before[i].contains(c) {
                let k = choose|k: int| 0 <= k < t.len() && t[k] == c;
                assert(s[k] == c);
            } else {
                assert(s.last() != sep);
                assert(i == before.len() - 1);
                let k = choose|k: int| 0 <= k < all[i].len() && all[i][k] == c;
                if k < before[i].len() {
                    assert(before[i][k] == c);
                    assert(before[i].contains(c));
                }
                assert(s[s.len() - 1] == c);
            }
        }
    }
}

/// A text without the separator is a single piece.
pub proof fn lemma_split_single(s: Seq<char>, sep: char)
    requires
        !s.contains(sep),
    ensures
        split(s, sep) == seq![s],
    decreases s.len(),
{
    if s.len() > 0 {
        let t = s.drop_last();
        assert forall|k: int| 0 <= k < t.len() implies t[k] != sep by {
            assert(s[k] == t[k]);
        }
        lemma_split_single(t, sep);
        assert(s.last() != sep);
        assert(t.push(s.last()) =~= s);
        assert(split(s, sep) =~= seq![s]);
    } else {
        assert(s =~= Seq::<char>::empty());
    }
}

/// A separator between two texts separates their pieces.
pub proof fn lemma_split_concat(a: Seq<char>, sep: char, b: Seq<char>)
    ensures
        split(a + seq![sep] + b, sep) == split(a, sep) + split(b, sep),
    decreases b.len(),
{
    let whole = a + seq![sep] + b;
    if b.len() == 0 {
        assert(whole.drop_last() =~= a);
        assert(split(whole, sep) =~= split(a, sep) + split(b, sep));
    } else {
        let c = b.drop_last();
        lemma_split_concat(a, sep, c);
        lemma_split_pieces(c, sep);
        assert(whole.drop_last() =~= a + seq![sep] + c);
        assert(whole.last() == b.last());
        assert(split(whole, sep) =~= split(a, sep) + split(b, sep));
    }
}

/// The pieces of slashed segments: an empty one, then the segments.
pub proof fn lemma_split_slashed(cs: Seq<Seq<char>>)
    requires
        valid_components(cs),
    ensures
        split(slashed(cs), '/') == seq![Seq::<char>::empty()] + cs,
    decreases cs.len(),
{
    if cs.len() == 0 {
        assert(split(slashed(cs), '/') =~= seq![Seq::<char>::empty()] + cs);
    } else {
        let front = cs.drop_last();
        assert(valid_components(front)) by {
            assert forall|i: int| 0 <= i < front.len() implies valid_component(#[trigger] front[i]) by {
                assert(front[i] == cs[i]);
            }
        }
        lemma_split_slashed(front);
        lemma_split_concat(slashed(front), '/', cs.last());
        assert(valid_component(cs[cs.len() - 1]));
        lemma_split_single(cs.last(), '/');
        assert(seq![Seq::<char>::empty()] + front + seq![cs.last()] =~= seq![Seq::<char>::empty()] + cs);
    }
}

/// Applying two lists of segments one after the other.
pub proof fn lemma_resolve_concat(stack: Seq<Seq<char>>, a: Seq<Seq<char>>, b: Seq<Seq<char>>)
    ensures
        resolve_from(stack, a + b) == resolve_from(resolve_from(stack, a), b),
    decreases b.len(),
{
    if b.len() == 0 {
        assert(a + b =~= a);
    } else {
        lemma_resolve_concat(stack, a, b.drop_last());
        assert((a + b).drop_last() =~= a + b.drop_last());
    }
}

/// Segments of a normalized path are all kept.
pub proof fn lemma_resolve_valid(stack: Seq<Seq<char>>, cs: Seq<Seq<char>>)
    requires
        valid_components(cs),
    ensures
        resolve_from(stack, cs) == stack + cs,
    decreases cs.len(),
{
    if cs.len() == 0 {
        assert(stack + cs =~= stack);
    } else {
        let front = cs.drop_last();
        assert forall|i: int| 0 <= i < front.len() implies valid_component(#[trigger] front[i]) by {
            assert(front[i] == cs[i]);
        }
        lemma_resolve_valid(stack, front);
        assert(valid_component(cs[cs.len() - 1]));
        assert((stack + front).push(cs.last()) =~= stack + cs);
    }
}

/// The segments of a rendered path are the segments that were rendered.
pub proof fn lemma_components_render(cs: Seq<Seq<char>>)
    requires
        valid_components(cs),
    ensures
        components(render(cs)) == cs,
{
    let none = Seq::<Seq<char>>::empty();
    if cs.len() == 0 {
        let root = seq!['/'];
        let e = Seq::<char>::empty();
        lemma_split_concat(e, '/', e);
        assert(e + seq!['/'] + e =~= root);
        assert(split(e, '/') == seq![e]);
        assert(seq![e] + seq![e] =~= seq![e, e]);
        assert(seq![e, e].drop_last() =~= seq![e]);
        assert(seq![e].drop_last() =~= none);
        reveal_with_fuel(resolve_from, 3);
        assert(components(root) =~= cs);
    } else {
        let e = Seq::<char>::empty();
        lemma_split_slashed(cs);
        lemma_resolve_concat(none, seq![e], cs);
        assert(seq![e].drop_last() =~= none);
        reveal_with_fuel(resolve_from, 2);
        assert(resolve_from(none, seq![e]) == none);
        lemma_resolve_valid(none, cs);
        assert(none + cs =~= cs);
    }
}

/// What is left of pieces without slashes and nulls are segments of a normalized
/// path.
pub proof fn lemma_resolve_makes_valid(stack: Seq<Seq<char>>, parts: Seq<Seq<char>>)
    requires
        valid_components(stack),
        forall|i: int|
            0 <= i < parts.len() ==> !(#[trigger] parts[i]).contains('/') && !parts[i].contains('\0'),
    ensures
        valid_components(resolve_from(stack, parts)),
    decreases parts.len(),
{
    if parts.len() > 0 {
        let front = parts.drop_last();
        assert forall|i: int| 0 <= i < front.len() implies !(#[trigger] front[i]).contains('/')
            && !front[i].contains('\0') by {
            assert(front[i] == parts[i]);
        }
        lemma_resolve_makes_valid(stack, front);
        let before = resolve_from(stack, front);
        let after = resolve_from(stack, parts);
        assert(!parts[parts.len() - 1].contains('/'));
        assert forall|i: int| 0 <= i < after.len() implies valid_component(#[trigger] after[i]) by {
            if i < before.len() {
                assert(valid_component(before[i]));
            }
        }
    }
}

/// A valid path is rendered from its own segments, which are all valid.
pub proof fn lemma_valid_path(p: Seq<char>)
    requires
        valid_path(p),
    ensures
        valid_components(components(p)),
        render(components(p)) == p,
        p.len() > 0,
        p[0] == '/',
        components(p).len() == 0 <==> p == seq!['/'],
{
    let cs = choose|cs: Seq<Seq<char>>| valid_components(cs) && p == #[trigger] render(cs);
    lemma_components_render(cs);
    lemma_slashed_shape(cs);
}

/// Slashed segments start with a slash, and are longer than it.
proof fn lemma_slashed_shape(cs: Seq<Seq<char>>)
    requires
        valid_components(cs),
    ensures
        cs.len() > 0 ==> slashed(cs).len() > 1 && slashed(cs)[0] == '/',
    decreases cs.len(),
{
    if cs.len() > 0 {
        let front = cs.drop_last();
        assert forall|i: int| 0 <= i < front.len() implies valid_component(#[trigger] front[i]) by {
            assert(front[i] == cs[i]);
        }
        lemma_slashed_shape(front);
        assert(valid_component(cs[cs.len() - 1]));
        assert((slashed(front) + seq!['/'])[0] == '/');
    }
}

/// A nameable text has a valid normal form.
pub proof fn lemma_normal_form_valid(s: Seq<char>)
    requires
        !s.contains('\0'),
    ensures
        valid_components(components(s)),
        valid_path(normal_form(s)),
        components(normal_form(s)) == components(s),
{
    lemma_split_pieces(s, '/');
    let parts = split(s, '/');
    assert forall|i: int| 0 <= i < parts.len() implies !(#[trigger] parts[i]).contains('/')
        && !parts[i].contains('\0') by {
        if parts[i].contains('\0') {
            assert(s.contains('\0'));
        }
    }
    lemma_resolve_makes_valid(Seq::empty(), parts);
    lemma_components_render(components(s));
}

/// The segments of an ancestor, spelled out, and those below it.
proof fn lemma_slashed_concat(a: Seq<Seq<char>>, b: Seq<Seq<char>>)
    ensures
        slashed(a + b) == slashed(a) + slashed(b),
    decreases b.len(),
{
    if b.len() == 0 {
        assert(a + b =~= a);
        assert(slashed(a) + slashed(b) =~= slashed(a));
    } else {
        lemma_slashed_concat(a, b.drop_last());
        assert((a + b).drop_last() =~= a + b.drop_last());
        assert(slashed(a + b) =~= slashed(a) + slashed(b));
    }
}

/// One path is an ancestor of another, or the same, just when its text is the
/// root's, or begins the other's text at a segment border.
pub proof fn lemma_prefix_text(p: Seq<char>, q: Seq<char>)
    requires
        valid_path(p),
        valid_path(q),
        p != seq!['/'],
    ensures
        path_prefix(p, q) <==> crate::text::starts_with(q, p) && (q.len() == p.len() || q[p.len() as int]
            == '/'),
{
    lemma_valid_path(p);
    lemma_valid_path(q);
    let cp = components(p);
    let cq = components(q);
    lemma_split_slashed(cp);
    if path_prefix(p, q) {
        let rest = cq.subrange(cp.len() as int, cq.len() as int);
        assert(cp + rest =~= cq);
        lemma_slashed_concat(cp, rest);
        assert(forall|i: int| 0 <= i < rest.len() ==> #[trigger] rest[i] == cq[cp.len() + i]);
        assert(valid_components(rest));
        lemma_slashed_shape(rest);
        assert(q.subrange(0, p.len() as int) =~= p);
        if rest.len() == 0 {
            assert(slashed(rest).len() == 0);
        }
    }
    if crate::text::starts_with(q, p) && (q.len() == p.len() || q[p.len() as int] == '/') {
        if q.len() == p.len() {
            assert(q =~= p);
            assert(cp.is_prefix_of(cq));
        } else {
            let t = q.subrange(p.len() as int + 1, q.len() as int);
            assert(q =~= p + seq!['/'] + t);
            lemma_split_concat(p, '/', t);
            let e = Seq::<char>::empty();
            if cq.len() == 0 {
                assert(q.len() == 1);
                assert(false);
            }
            lemma_split_slashed(cq);
            let whole = seq![e] + cp + split(t, '/');
            assert(whole == seq![e] + cq);
            assert(cq =~= whole.subrange(1, whole.len() as int));
            assert forall|i: int| 0 <= i < cp.len() implies cp[i] == cq[i] by {
                assert(whole[i + 1] == cp[i]);
            }
            lemma_split_pieces(t, '/');
            assert(cp.len() <= cq.len());
            assert(cp =~= cq.subrange(0, cp.len() as int));
        }
    }
}

// ---------------------------------------------------------------------------
// The path type

/// A normalized, absolute, unix-style virtual filesystem path.
#[derive(Debug, PartialEq, Eq, Hash, PartialOrd, Ord)]
pub struct VfsPath(String);

impl View for VfsPath {
    type V = Seq<char>;

    closed spec fn view(&self) -> Seq<char> {
        self.0@
    }
}

impl Clone for VfsPath {
    fn clone(&self) -> (r: Self)
        ensures
            r == *self,
    {
        proof {
            use_type_invariant(self);
        }
        VfsPath(self.0.clone())
    }
}

/// The segments that a list of character lists holds.
spec fn texts(v: Seq<Vec<char>>) -> Seq<Seq<char>> {
    v.map_values(|x: Vec<char>| x@)
}

/// Whether the list is empty or a single dot.
fn is_noop_part(v: &Vec<char>) -> (r: bool)
    ensures
        r == (v@.len() == 0 || v@ == seq!['.']),
{
    if v.len() == 0 {
        return true;
    }
    if v.len() == 1 && v[0] == '.' {
        assert(v@ =~= seq!['.']);
        return true;
    }
    assert(v@.len() == 1 ==> v@[0] != seq!['.'][0]);
    false
}

/// Whether the list is two dots.
fn is_up_part(v: &Vec<char>) -> (r: bool)
    ensures
        r == (v@ == seq!['.', '.']),
{
    if v.len() == 2 && v[0] == '.' && v[1] == '.' {
        assert(v@ =~= seq!['.', '.']);
        true
    } else {
        assert(v@ == seq!['.', '.'] ==> v@[0] == '.' && v@[1] == '.');
        false
    }
}

/// Applies the segment `part` to the segments before it.
fn apply(stack: &mut Vec<Vec<char>>, part: Vec<char>)
    ensures
        texts(final(stack)@) == apply_part(texts(old(stack)@), part@),
{
    if is_noop_part(&part) {
    } else if is_up_part(&part) {
        if stack.len() > 0 {
            stack.pop();
            assert(texts(stack@) =~= texts(old(stack)@).drop_last());
        }
        assert(seq!['.', '.'].len() == 2);
    } else {
        stack.push(part);
        assert(texts(stack@) =~= texts(old(stack)@).push(part@));
    }
}

/// The normalized path that the text `v` names.
fn normalize(v: &Vec<char>) -> (r: String)
    ensures
        r@ == normal_form(v@),
{
    let mut stack: Vec<Vec<char>> = Vec::new();
    let mut part: Vec<char> = Vec::new();
    let mut i: usize = 0;
    assert(v@.take(0) =~= Seq::<char>::empty());
    assert(split(v@.take(0), '/').drop_last() =~= Seq::empty());
    assert(texts(stack@) =~= Seq::empty());
    assert(part@ =~= Seq::<char>::empty());
    while i < v.len()
        invariant
            i <= v@.len(),
            split(v@.take(i as int), '/').len() > 0,
            split(v@.take(i as int), '/').last() == part@,
            texts(stack@) == resolve_from(Seq::empty(), split(v@.take(i as int), '/').drop_last()),
        decreases v@.len() - i,
    {
        let ghost before = split(v@.take(i as int), '/');
        assert(v@.take(i + 1).drop_last() =~= v@.take(i as int));
        assert(v@.take(i + 1).last() == v@[i as int]);
        if v[i] == '/' {
            apply(&mut stack, part);
            part = Vec::new();
            assert(before.push(Seq::<char>::empty()).drop_last() =~= before);
            assert(part@ =~= Seq::<char>::empty());
        } else {
            part.push(v[i]);
            assert(before.drop_last().push(part@).drop_last() =~= before.drop_last());
        }
        i += 1;
    }
    assert(v@.take(v@.len() as int) =~= v@);
    apply(&mut stack, part);
    let ghost cs = texts(stack@);
    if stack.len() == 0 {
        let mut r = String::new();
        r.push('/');
        assert(r@ =~= seq!['/']);
        return r;
    }
    let mut r = String::new();
    let mut k: usize = 0;
    assert(cs.take(0) =~= Seq::empty());
    while k < stack.len()
        invariant
            k <= stack@.len(),
            cs == texts(stack@),
            r@ == slashed(cs.take(k as int)),
        decreases stack@.len() - k,
    {
        r.push('/');
        let s = string_of(&stack[k], 0, stack[k].len());
        r.append(s.as_str());
        assert(stack@[k as int]@.subrange(0, stack@[k as int]@.len() as int) =~= stack@[k as int]@);
        assert(cs.take(k + 1).drop_last() =~= cs.take(k as int));
        assert(cs.take(k + 1).last() == stack@[k as int]@);
        assert(r@ =~= slashed(cs.take(k as int)) + seq!['/'] + stack@[k as int]@);
        k += 1;
    }
    assert(cs.take(cs.len() as int) =~= cs);
    r
}

/// Whether `c` stands in `v`.
fn holds_char(v: &Vec<char>, c: char) -> (r: bool)
    ensures
        r == v@.contains(c),
{
    let mut i: usize = 0;
    while i < v.len()
        invariant
            i <= v@.len(),
            forall|k: int| 0 <= k < i ==> v@[k] != c,
        decreases v@.len() - i,
    {
        if v[i] == c {
            return true;
        }
        i += 1;
    }
    false
}

/// The position of the last slash.
fn last_slash(v: &Vec<char>) -> (r: usize)
    requires
        v@.len() > 0,
        v@[0] == '/',
    ensures
        r < v.len(),
        v@[r as int] == '/',
        forall|k: int| r < k < v@.len() ==> v@[k] != '/',
{
    let mut i: usize = v.len() - 1;
    while v[i] != '/'
        invariant
            i < v@.len(),
            v@[0] == '/',
            forall|k: int| i < k < v@.len() ==> v@[k] != '/',
        decreases i,
    {
        i -= 1;
    }
    i
}

/// Where the last slash of a path below the root stands, and what is around it.
proof fn lemma_last_slash(p: Seq<char>, at: int)
    requires
        valid_path(p),
        p != seq!['/'],
        0 <= at < p.len(),
        p[at] == '/',
        forall|k: int| at < k < p.len() ==> p[k] != '/',
    ensures
        components(p).len() > 0,
        p.subrange(0, at) == slashed(components(p).drop_last()),
        p.subrange(at + 1, p.len() as int) == components(p).last(),
{
    lemma_valid_path(p);
    let cs = components(p);
    let front = slashed(cs.drop_last());
    let last = cs.last();
    assert(valid_component(cs[cs.len() - 1]));
    assert(p == front + seq!['/'] + last);
    assert(p[front.len() as int] == '/');
    if at > front.len() {
        assert(last[at - front.len() - 1] == p[at]);
        assert(last.contains('/'));
    }
    assert(at == front.len());
    assert(p.subrange(0, at) =~= front);
    assert(p.subrange(at + 1, p.len() as int) =~= last);
}

impl VfsPath {
    /// Every path is normalized.
    #[verifier::type_invariant]
    pub open spec fn well_formed(self) -> bool {
        valid_path(self@)
    }

    /// The normalized path that the text names; an empty text and one with a null
    /// character name none.
    pub fn new(raw: &str) -> (r: Result<VfsPath, FvfsError>)
        ensures
            match r {
                Ok(p) => nameable(raw@) && p@ == normal_form(raw@) && valid_path(p@),
                Err(e) => !nameable(raw@) && e@ == invalid_path_error(raw@),
            },
    {
        let v = chars_of(raw);
        if v.len() == 0 {
            return Err(FvfsError::InvalidPath("path cannot be empty".to_owned()));
        }
        if holds_char(&v, '\0') {
            return Err(FvfsError::InvalidPath("path cannot contain null bytes".to_owned()));
        }
        let text = normalize(&v);
        proof {
            lemma_normal_form_valid(raw@);
        }
        Ok(VfsPath(text))
    }

    /// The root directory.
    pub fn root() -> (p: VfsPath)
        ensures
            p@ == seq!['/'],
            valid_path(p@),
    {
        let mut s = String::new();
        s.push('/');
        assert(s@ =~= seq!['/']);
        proof {
            let none = Seq::<Seq<char>>::empty();
            assert(valid_components(none));
            assert(render(none) == seq!['/']);
        }
        VfsPath(s)
    }

    /// The path under which an entry is shown whose name cannot be a path.
    pub fn unknown() -> (p: VfsPath)
        ensures
            p@ == "/unknown"@,
    {
        let mut s = String::new();
        s.push('/');
        s.append("unknown");
        proof {
            reveal_strlit("/unknown");
            reveal_strlit("unknown");
            assert(s@ =~= "/unknown"@);
            let c = "unknown"@;
            assert(c[0] == 'u');
            assert forall|i: int| 0 <= i < c.len() implies c[i] != '/' && c[i] != '\0' by {}
            let cs = seq![c];
            assert(valid_component(c));
            assert(valid_components(cs));
            assert(cs.drop_last() =~= Seq::empty());
            reveal_with_fuel(slashed, 2);
            assert(render(cs) =~= s@);
        }
        VfsPath(s)
    }

    /// The text of the path.
    pub fn as_str(&self) -> (r: &str)
        ensures
            r@ == self@,
            valid_path(self@),
    {
        proof {
            use_type_invariant(self);
        }
        self.0.as_str()
    }

    /// A copy of the text of the path.
    pub fn text(&self) -> (r: String)
        ensures
            r@ == self@,
            valid_path(self@),
    {
        proof {
            use_type_invariant(self);
        }
        self.0.clone()
    }

    /// Whether this is the root directory.
    pub fn is_root(&self) -> (r: bool)
        ensures
            r == (self@ == seq!['/']),
            r == (components(self@).len() == 0),
    {
        proof {
            use_type_invariant(self);
            lemma_valid_path(self@);
        }
        let v = chars_of(self.0.as_str());
        assert(v@.len() == 1 ==> v@ =~= seq!['/']);
        v.len() == 1
    }

    /// The path one level up. The root has none.
    pub fn parent(&self) -> (r: Option<VfsPath>)
        ensures
            match r {
                Some(q) => parent_of(self@) == Some(q@) && valid_path(q@),
                None => parent_of(self@) is None,
            },
    {
        proof {
            use_type_invariant(self);
            lemma_valid_path(self@);
        }
        if self.is_root() {
            return None;
        }
        let v = chars_of(self.0.as_str());
        let at = last_slash(&v);
        proof {
            lemma_last_slash(self@, at as int);
            let cs = components(self@);
            let front = cs.drop_last();
            assert forall|i: int| 0 <= i < front.len() implies valid_component(#[trigger] front[i]) by {
                assert(front[i] == cs[i]);
            }
            assert(valid_components(front));
            lemma_slashed_shape(front);
            assert(valid_path(render(front)));
        }
        if at == 0 {
            Some(VfsPath::root())
        } else {
            assert(components(self@).drop_last().len() > 0);
            Some(VfsPath(string_of(&v, 0, at)))
        }
    }

    /// The last segment of the path; the root's is a slash.
    pub fn file_name(&self) -> (r: &str)
        ensures
            r@ == file_name_of(self@),
    {
        proof {
            use_type_invariant(self);
            lemma_valid_path(self@);
        }
        if self.is_root() {
            return self.0.as_str();
        }
        let v = chars_of(self.0.as_str());
        let at = last_slash(&v);
        proof {
            lemma_last_slash(self@, at as int);
        }
        self.0.as_str().substring_char(at + 1, v.len())
    }

    /// Whether this path is `other` or an ancestor of it.
    pub fn is_prefix_of(&self, other: &VfsPath) -> (r: bool)
        ensures
            r == path_prefix(self@, other@),
    {
        proof {
            use_type_invariant(self);
            use_type_invariant(other);
            lemma_valid_path(self@);
        }
        if self.is_root() {
            assert(components(self@) =~= components(other@).subrange(0, 0));
            return true;
        }
        let p = chars_of(self.0.as_str());
        let q = chars_of(other.0.as_str());
        proof {
            lemma_prefix_text(self@, other@);
        }
        if !crate::text::chars_at(&q, &p, 0) {
            return false;
        }
        q.len() == p.len() || q[p.len()] == '/'
    }

    /// The path that `segment` names from here; it may hold several segments, and
    /// dots. A null character is refused.
    pub fn join(&self, segment: &str) -> (r: Result<VfsPath, FvfsError>)
        ensures
            match r {
                Ok(p) => !segment@.contains('\0') && p@ == normal_form(below(self@, segment@))
                    && valid_path(p@),
                Err(e) => segment@.contains('\0') && e@ == crate::error::ErrorView::InvalidPath(
                    "path cannot contain null bytes"@,
                ),
            },
    {
        proof {
            use_type_invariant(self);
            lemma_valid_path(self@);
            lemma_path_has_no_null(self@);
        }
        let raw = if self.is_root() {
            concat2(self.0.as_str(), segment)
        } else {
            concat3(self.0.as_str(), "/", segment)
        };
        proof {
            reveal_strlit("/");
            assert("/"@ =~= seq!['/']);
            lemma_below_null(self@, segment@);
        }
        VfsPath::new(raw.as_str())
    }
}

impl From<VfsPath> for String {
    /// The text of the path.
    fn from(p: VfsPath) -> (r: String)
        ensures
            r@ == p@,
    {
        p.0
    }
}

impl vstd::std_specs::convert::FromSpecImpl<VfsPath> for String {
    open spec fn obeys_from_spec() -> bool {
        true
    }

    closed spec fn from_spec(p: VfsPath) -> String {
        p.0
    }
}

/// Why a text that is not nameable is refused.
pub open spec fn invalid_path_error(raw: Seq<char>) -> crate::error::ErrorView {
    if raw.len() == 0 {
        crate::error::ErrorView::InvalidPath("path cannot be empty"@)
    } else {
        crate::error::ErrorView::InvalidPath("path cannot contain null bytes"@)
    }
}

/// A path holds no null character.
pub proof fn lemma_path_has_no_null(p: Seq<char>)
    requires
        valid_path(p),
    ensures
        !p.contains('\0'),
{
    lemma_valid_path(p);
    lemma_slashed_no_null(components(p));
}

proof fn lemma_slashed_no_null(cs: Seq<Seq<char>>)
    requires
        valid_components(cs),
    ensures
        !slashed(cs).contains('\0'),
    decreases cs.len(),
{
    if cs.len() > 0 {
        let front = cs.drop_last();
        assert forall|i: int| 0 <= i < front.len() implies valid_component(#[trigger] front[i]) by {
            assert(front[i] == cs[i]);
        }
        lemma_slashed_no_null(front);
        assert(valid_component(cs[cs.len() - 1]));
        let s = slashed(cs);
        let a = slashed(front);
        assert forall|k: int| 0 <= k < s.len() implies s[k] != '\0' by {
            if k < a.len() {
                assert(s[k] == a[k]);
                assert(a.contains(a[k]));
            } else if k > a.len() {
                assert(s[k] == cs.last()[k - a.len() - 1]);
                assert(cs.last().contains(s[k]));
            }
        }
    }
}

/// A null in the text below a path is one of the segment's.
proof fn lemma_below_null(p: Seq<char>, segment: Seq<char>)
    requires
        !p.contains('\0'),
    ensures
        below(p, segment).contains('\0') <==> segment.contains('\0'),
{
    let s = below(p, segment);
    let n = s.len() - segment.len();
    if segment.contains('\0') {
        let k = choose|k: int| 0 <= k < segment.len() && segment[k] == '\0';
        assert(s[n + k] == '\0');
    }
    if s.contains('\0') {
        let k = choose|k: int| 0 <= k < s.len() && s[k] == '\0';
        if k < p.len() {
            assert(p[k] == s[k]);
        } else if k >= n {
            assert(segment[k - n] == '\0');
        }
    }
}

/// Below the root, a path has no slash after its first and none at its end.
pub proof fn lemma_path_edges(p: Seq<char>)
    requires
        valid_path(p),
        p != seq!['/'],
    ensures
        p.len() > 1,
        p[1] != '/',
        p.last() != '/',
        crate::text::trim_start(p, '/') == p.subrange(1, p.len() as int),
{
    lemma_valid_path(p);
    let cs = components(p);
    lemma_slashed_shape(cs);
    let first = seq![cs[0]];
    let rest = cs.subrange(1, cs.len() as int);
    assert(first + rest =~= cs);
    lemma_slashed_concat(first, rest);
    assert(first.drop_last() =~= Seq::empty());
    reveal_with_fuel(slashed, 2);
    assert(slashed(first) =~= seq!['/'] + cs[0]);
    assert(valid_component(cs[0]));
    assert(p[1] == cs[0][0]);
    assert(cs[0].contains(cs[0][0]));
    let last = cs[cs.len() - 1];
    assert(valid_component(last));
    assert(p.last() == last.last());
    assert(last.contains(last[last.len() - 1]));
    let tail = p.subrange(1, p.len() as int);
    assert(tail[0] == p[1]);
    reveal_with_fuel(crate::text::trim_start, 2);
}

// ---------------------------------------------------------------------------
// Laws of paths

/// Normalizing a path gives the path back.
pub proof fn law_normal_form_is_fixed(p: Seq<char>)
    requires
        valid_path(p),
    ensures
        nameable(p),
        normal_form(p) == p,
{
    lemma_valid_path(p);
    lemma_path_has_no_null(p);
}

/// Whatever text can be made a path becomes a normalized one: it starts with a
/// slash, and no segment of it is empty, a dot, two dots, or holds a slash or a null.
pub proof fn law_new_normalizes(s: Seq<char>)
    requires
        nameable(s),
    ensures
        valid_path(normal_form(s)),
        valid_components(components(normal_form(s))),
        normal_form(s)[0] == '/',
        normal_form(normal_form(s)) == normal_form(s),
{
    lemma_normal_form_valid(s);
    lemma_valid_path(normal_form(s));
}

/// Two normalized paths with the same segments are the same path.
pub proof fn law_components_identify(p: Seq<char>, q: Seq<char>)
    requires
        valid_path(p),
        valid_path(q),
        components(p) == components(q),
    ensures
        p == q,
{
    lemma_valid_path(p);
    lemma_valid_path(q);
}

/// Joining from a path applies the segments of the text to its own.
pub proof fn lemma_below_components(p: Seq<char>, segment: Seq<char>)
    requires
        valid_path(p),
    ensures
        components(below(p, segment)) == resolve_from(components(p), split(segment, '/')),
{
    lemma_valid_path(p);
    let none = Seq::<Seq<char>>::empty();
    if p == seq!['/'] {
        let e = Seq::<char>::empty();
        assert(p + segment =~= e + seq!['/'] + segment);
        lemma_split_concat(e, '/', segment);
        lemma_resolve_concat(none, split(e, '/'), split(segment, '/'));
        assert(split(e, '/') == seq![e]);
        assert(seq![e].drop_last() =~= none);
        reveal_with_fuel(resolve_from, 2);
        assert(components(p) =~= none);
    } else {
        lemma_split_concat(p, '/', segment);
        lemma_resolve_concat(none, split(p, '/'), split(segment, '/'));
    }
}

/// Joining a plain segment goes one level down: its parent is where it was joined,
/// and its last segment is the one that was joined.
pub proof fn law_join_goes_down(p: Seq<char>, segment: Seq<char>)
    requires
        valid_path(p),
        valid_component(segment),
    ensures
        components(below(p, segment)) == components(p).push(segment),
        valid_path(normal_form(below(p, segment))),
        components(normal_form(below(p, segment))) == components(p).push(segment),
        parent_of(normal_form(below(p, segment))) == Some(p),
        file_name_of(normal_form(below(p, segment))) == segment,
{
    lemma_valid_path(p);
    lemma_below_components(p, segment);
    lemma_split_single(segment, '/');
    let cs = components(p);
    let one = seq![segment];
    assert(valid_components(one));
    lemma_resolve_valid(cs, one);
    assert(cs + one =~= cs.push(segment));
    let down = cs.push(segment);
    assert(valid_components(down)) by {
        assert forall|i: int| 0 <= i < down.len() implies valid_component(#[trigger] down[i]) by {
            if i < cs.len() {
                assert(valid_component(cs[i]));
            }
        }
    }
    lemma_components_render(down);
    assert(down.drop_last() =~= cs);
}

/// Joining the last segment to the parent gives the path back.
pub proof fn law_parent_then_join(p: Seq<char>)
    requires
        valid_path(p),
        p != seq!['/'],
    ensures
        parent_of(p) is Some,
        valid_path(parent_of(p)->0),
        normal_form(below(parent_of(p)->0, file_name_of(p))) == p,
{
    lemma_valid_path(p);
    let cs = components(p);
    let front = cs.drop_last();
    assert forall|i: int| 0 <= i < front.len() implies valid_component(#[trigger] front[i]) by {
        assert(front[i] == cs[i]);
    }
    assert(valid_path(render(front)));
    assert(valid_component(cs[cs.len() - 1]));
    lemma_components_render(front);
    law_join_goes_down(render(front), cs.last());
    assert(front.push(cs.last()) =~= cs);
}

/// The root is above everything, and a parent is above its child.
pub proof fn law_prefix_of_parent(p: Seq<char>)
    requires
        valid_path(p),
    ensures
        path_prefix(seq!['/'], p),
        parent_of(p) matches Some(q) ==> valid_path(q) && path_prefix(q, p) && !path_prefix(p, q)
            && components(q).len() + 1 == components(p).len(),
{
    lemma_valid_path(p);
    let none = Seq::<Seq<char>>::empty();
    assert(render(none) == seq!['/']);
    lemma_components_render(none);
    assert(none =~= components(p).subrange(0, 0));
    let cs = components(p);
    if cs.len() > 0 {
        let front = cs.drop_last();
        assert forall|i: int| 0 <= i < front.len() implies valid_component(#[trigger] front[i]) by {
            assert(front[i] == cs[i]);
        }
        assert(valid_path(render(front)));
        lemma_components_render(front);
        assert(front =~= cs.subrange(0, front.len() as int));
    }
}

/// "Is or is above" is a partial order on normalized paths.
pub proof fn law_prefix_is_partial_order(p: Seq<char>, q: Seq<char>, r: Seq<char>)
    requires
        valid_path(p),
        valid_path(q),
        valid_path(r),
    ensures
        path_prefix(p, p),
        path_prefix(p, q) && path_prefix(q, p) ==> p == q,
        path_prefix(p, q) && path_prefix(q, r) ==> path_prefix(p, r),
{
    lemma_valid_path(p);
    lemma_valid_path(q);
    let a = components(p);
    let b = components(q);
    let c = components(r);
    assert(a =~= a.subrange(0, a.len() as int));
    if path_prefix(p, q) && path_prefix(q, p) {
        assert(a =~= b);
    }
    if path_prefix(p, q) && path_prefix(q, r) {
        assert(a =~= c.subrange(0, a.len() as int)) by {
            assert forall|i: int| 0 <= i < a.len() implies a[i] == c[i] by {
                assert(a[i] == b.subrange(0, a.len() as int)[i]);
                assert(b[i] == c.subrange(0, b.len() as int)[i]);
            }
        }
    }
}

/// A text names the same path with and without a slash in front of it: every path is
/// absolute.
pub proof fn law_names_start_at_the_root(s: Seq<char>)
    ensures
        normal_form(seq!['/'] + s) == normal_form(s),
{
    let e = Seq::<char>::empty();
    let none = Seq::<Seq<char>>::empty();
    lemma_split_concat(e, '/', s);
    assert(e + seq!['/'] + s =~= seq!['/'] + s);
    assert(split(e, '/') == seq![e]);
    lemma_resolve_concat(none, seq![e], split(s, '/'));
    assert(seq![e].drop_last() =~= none);
    reveal_with_fuel(resolve_from, 2);
}

/// Joining a text with a slash in it joins what is in front of the slash, and then what is
/// behind it.
pub proof fn law_join_goes_step_by_step(p: Seq<char>, a: Seq<char>, b: Seq<char>)
    requires
        valid_path(p),
        !a.contains('\0'),
    ensures
        normal_form(below(p, a + seq!['/'] + b)) == normal_form(below(normal_form(below(p, a)), b)),
{
    lemma_path_has_no_null(p);
    lemma_below_null(p, a);
    lemma_normal_form_valid(below(p, a));
    let q = normal_form(below(p, a));
    lemma_below_components(p, a + seq!['/'] + b);
    lemma_below_components(p, a);
    lemma_below_components(q, b);
    lemma_split_concat(a, '/', b);
    lemma_resolve_concat(components(p), split(a, '/'), split(b, '/'));
}

/// Joining nothing or a dot stays, and joining two dots goes one level up; the root has
/// nothing above it.
pub proof fn law_join_of_dots(p: Seq<char>)
    requires
        valid_path(p),
    ensures
        normal_form(below(p, Seq::empty())) == p,
        normal_form(below(p, seq!['.'])) == p,
        normal_form(below(p, seq!['.', '.'])) == (match parent_of(p) {
            Some(q) => q,
            None => seq!['/'],
        }),
{
    lemma_valid_path(p);
    let cs = components(p);
    let none = Seq::<char>::empty();
    let dot = seq!['.'];
    let dots = seq!['.', '.'];
    lemma_below_components(p, none);
    lemma_below_components(p, dot);
    lemma_below_components(p, dots);
    lemma_split_single(none, '/');
    lemma_split_single(dot, '/');
    lemma_split_single(dots, '/');
    reveal_with_fuel(resolve_from, 2);
    assert(seq![none].drop_last() =~= Seq::empty());
    assert(seq![dot].drop_last() =~= Seq::empty());
    assert(seq![dots].drop_last() =~= Seq::empty());
    assert(dots != dot) by {
        assert(dots.len() != dot.len());
    }
}

} // verus!
