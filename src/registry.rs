//! The portable type registry: shape descriptors addressed by id and by path.
use vstd::prelude::*;

verus! {

/// The primitive kinds of the registry.
#[derive(Debug, Clone, Copy, PartialEq, Eq, Structural)]
pub enum Primitive {
    Bool,
    Char,
    Str,
    U8,
    U16,
    U32,
    U64,
    U128,
    U256,
    I8,
    I16,
    I32,
    I64,
    I128,
    I256,
}

/// A field of a composite or of a variant: an optional name and a type id.
#[derive(Debug, Clone, PartialEq)]
pub struct Field {
    pub name: Option<String>,
    pub ty: u32,
}

/// One variant of an enumeration, selected by its discriminant byte.
#[derive(Debug, Clone, PartialEq)]
pub struct VariantDef {
    pub name: String,
    pub index: u8,
    pub fields: Vec<Field>,
}

/// The structural family of a registry entry.
#[derive(Debug, Clone, PartialEq)]
pub enum TypeDef {
    Composite(Vec<Field>),
    Variant(Vec<VariantDef>),
    /// A variable-length sequence of the element type.
    Sequence(u32),
    /// A fixed-length array: its length, then its element type.
    Array(u32, u32),
    Tuple(Vec<u32>),
    Primitive(Primitive),
    /// A `Compact` integer of the inner type.
    Compact(u32),
    /// A bit sequence: its store type, then its bit order type.
    BitSequence(u32, u32),
}

/// A registry entry.
#[derive(Debug, Clone, PartialEq)]
pub struct PortableType {
    pub id: u32,
    pub path: Vec<String>,
    pub type_params: Vec<String>,
    pub type_def: TypeDef,
}

/// The registry: an ordered collection of entries.
#[derive(Debug, Clone, PartialEq)]
pub struct TypeRegistry {
    pub types: Vec<PortableType>,
}

/// Why a lookup by name failed.
#[derive(Debug, Clone, PartialEq)]
pub enum ResolveError {
    NotFound,
    /// More than one entry matched; their ids, in registry order.
    Ambiguous(Vec<u32>),
}

/// The index of the first entry at or after `k` whose id is `id`.
pub open spec fn find_from(types: Seq<PortableType>, id: u32, k: int) -> Option<int>
    decreases types.len() - k,
{
    if k < 0 || k >= types.len() {
        None
    } else if types[k].id == id {
        Some(k)
    } else {
        find_from(types, id, k + 1)
    }
}

pub proof fn lemma_find_from(types: Seq<PortableType>, id: u32, k: int)
    requires
        0 <= k,
    ensures
        find_from(types, id, k) matches Some(j) ==> k <= j < types.len() && types[j].id == id,
        find_from(types, id, k) is None ==> forall|j: int| k <= j < types.len() ==> types[j].id != id,
    decreases types.len() - k,
{
    if k < types.len() && types[k].id != id {
        lemma_find_from(types, id, k + 1);
    }
}

/// The segments of a path joined by `::`.
pub open spec fn joined_path(path: Seq<Seq<char>>) -> Seq<char>
    decreases path.len(),
{
    if path.len() == 0 {
        Seq::empty()
    } else if path.len() == 1 {
        path[0]
    } else {
        joined_path(path.drop_last()) + seq![':', ':'] + path.last()
    }
}

/// The names of generic parameters joined by `, `.
pub open spec fn joined_params(params: Seq<Seq<char>>) -> Seq<char>
    decreases params.len(),
{
    if params.len() == 0 {
        Seq::empty()
    } else if params.len() == 1 {
        params[0]
    } else {
        joined_params(params.drop_last()) + seq![',', ' '] + params.last()
    }
}

/// The views of a sequence of strings.
pub open spec fn string_views(s: Seq<String>) -> Seq<Seq<char>> {
    s.map_values(|x: String| x@)
}

pub open spec fn ends_with(s: Seq<char>, suffix: Seq<char>) -> bool {
    suffix.len() <= s.len() && s.subrange(s.len() - suffix.len(), s.len() as int) == suffix
}

impl PortableType {
    /// The joined path of this entry.
    pub open spec fn path_text(&self) -> Seq<char> {
        joined_path(string_views(self.path@))
    }

    /// The joined path, followed by the generic parameter names in angle
    /// brackets when there are any.
    pub open spec fn display_text(&self) -> Seq<char> {
        if self.type_params@.len() == 0 {
            self.path_text()
        } else {
            self.path_text() + seq!['<'] + joined_params(string_views(self.type_params@)) + seq!['>']
        }
    }

    /// The name under which a match is reported: the joined path, with the
    /// generic parameter names appended as `<A, B>` when there are any.
    pub fn display_name(&self) -> (r: Vec<char>)
        ensures
            r@ == self.display_text(),
    {
        let mut out = join_path(&self.path);
        if self.type_params.len() > 0 {
            out.push('<');
            let ghost before = out@;
            let mut i: usize = 0;
            while i < self.type_params.len()
                invariant
                    i <= self.type_params@.len(),
                    self.type_params@.len() > 0,
                    out@ == before + joined_params(string_views(self.type_params@.subrange(0, i as int))),
                decreases self.type_params@.len() - i,
            {
                let ghost prev = string_views(self.type_params@.subrange(0, i as int));
                let ghost next = string_views(self.type_params@.subrange(0, i + 1));
                assert(next.drop_last() =~= prev);
                if i > 0 {
                    out.push(',');
                    out.push(' ');
                }
                push_chars(&mut out, self.type_params[i].as_str());
                i = i + 1;
                assert(out@ =~= before + joined_params(next));
            }
            assert(self.type_params@.subrange(0, i as int) =~= self.type_params@);
            out.push('>');
        }
        out
    }
}

/// The ids of the entries among the first `n` whose path ends with `suffix`.
pub open spec fn suffix_matches(types: Seq<PortableType>, suffix: Seq<char>, n: int) -> Seq<u32>
    decreases n,
{
    if n <= 0 {
        Seq::empty()
    } else {
        let before = suffix_matches(types, suffix, n - 1);
        if ends_with(types[n - 1].path_text(), suffix) {
            before.push(types[n - 1].id)
        } else {
            before
        }
    }
}

/// The outcome of a lookup that must find exactly one of `matches`.
pub open spec fn single_match(matches: Seq<u32>) -> Result<u32, Seq<u32>> {
    if matches.len() == 1 {
        Ok(matches[0])
    } else {
        Err(matches)
    }
}

/// Whether two strings hold the same characters.
pub fn same_text(a: &str, b: &str) -> (r: bool)
    ensures
        r == (a@ == b@),
{
    let n = a.unicode_len();
    if n != b.unicode_len() {
        return false;
    }
    let mut j: usize = 0;
    while j < n
        invariant
            n == a@.len() == b@.len(),
            j <= n,
            forall|k: int| 0 <= k < j ==> a@[k] == b@[k],
        decreases n - j,
    {
        if a.get_char(j) != b.get_char(j) {
            return false;
        }
        j = j + 1;
    }
    assert(a@ =~= b@);
    true
}

/// The bytes of `data` from `start` to `end`, as a vector.
pub fn slice_vec(data: &[u8], start: usize, end: usize) -> (r: Vec<u8>)
    requires
        start <= end <= data@.len(),
    ensures
        r@ == data@.subrange(start as int, end as int),
{
    let mut out: Vec<u8> = Vec::new();
    let mut i: usize = start;
    while i < end
        invariant
            start <= i <= end <= data@.len(),
            out@ == data@.subrange(start as int, i as int),
        decreases end - i,
    {
        out.push(data[i]);
        i = i + 1;
        assert(out@ =~= data@.subrange(start as int, i as int));
    }
    out
}

/// Appends the characters of `s` to `out`.
pub fn push_chars(out: &mut Vec<char>, s: &str)
    ensures
        final(out)@ == old(out)@ + s@,
{
    let n = s.unicode_len();
    let mut j: usize = 0;
    while j < n
        invariant
            n == s@.len(),
            j <= n,
            out@ == old(out)@ + s@.subrange(0, j as int),
        decreases n - j,
    {
        let c = s.get_char(j);
        out.push(c);
        j = j + 1;
        assert(out@ =~= old(out)@ + s@.subrange(0, j as int));
    }
    assert(s@.subrange(0, n as int) =~= s@);
}

/// The segments of `path` joined by `::`, as characters.
pub fn join_path(path: &Vec<String>) -> (r: Vec<char>)
    ensures
        r@ == joined_path(string_views(path@)),
{
    let mut out: Vec<char> = Vec::new();
    let mut i: usize = 0;
    while i < path.len()
        invariant
            i <= path@.len(),
            out@ == joined_path(string_views(path@.subrange(0, i as int))),
        decreases path@.len() - i,
    {
        let ghost before = string_views(path@.subrange(0, i as int));
        let ghost after = string_views(path@.subrange(0, i + 1));
        assert(after.drop_last() =~= before);
        if i > 0 {
            out.push(':');
            out.push(':');
        }
        push_chars(&mut out, path[i].as_str());
        i = i + 1;
        assert(out@ =~= joined_path(after));
    }
    assert(path@.subrange(0, i as int) =~= path@);
    out
}

fn chars_end_with(s: &Vec<char>, suffix: &str) -> (r: bool)
    ensures
        r == ends_with(s@, suffix@),
{
    let n = suffix.unicode_len();
    if n > s.len() {
        return false;
    }
    let off = s.len() - n;
    assert(s@.len() <= usize::MAX);
    let mut j: usize = 0;
    while j < n
        invariant
            n == suffix@.len(),
            off + n == s@.len(),
            s@.len() <= usize::MAX,
            j <= n,
            forall|k: int| 0 <= k < j ==> s@[off + k] == suffix@[k],
        decreases n - j,
    {
        if s[off + j] != suffix.get_char(j) {
            assert(s@.subrange(off as int, s@.len() as int)[j as int] != suffix@[j as int]);
            return false;
        }
        j = j + 1;
    }
    assert(s@.subrange(off as int, s@.len() as int) =~= suffix@);
    true
}

impl TypeRegistry {
    /// The position of the first entry with id `id`.
    pub open spec fn index_of(&self, id: u32) -> Option<int> {
        find_from(self.types@, id, 0)
    }

    /// The position of the entry with id `id`, if the registry holds one.
    pub fn position(&self, id: u32) -> (r: Option<usize>)
        ensures
            r matches Some(k) ==> self.index_of(id) == Some(k as int),
            r is None ==> self.index_of(id) is None,
    {
        let mut k: usize = 0;
        while k < self.types.len()
            invariant
                k <= self.types@.len(),
                find_from(self.types@, id, 0) == find_from(self.types@, id, k as int),
            decreases self.types@.len() - k,
        {
            if self.types[k].id == id {
                return Some(k);
            }
            k = k + 1;
        }
        None
    }

    /// The ids of the entries whose joined path ends with `suffix`, in order.
    pub open spec fn suffix_matches(&self, suffix: Seq<char>) -> Seq<u32> {
        suffix_matches(self.types@, suffix, self.types@.len() as int)
    }

    /// Looks an entry up by the end of its path (case-sensitive). No match is
    /// `NotFound`; several are `Ambiguous`, with all their ids.
    pub fn find_by_suffix(&self, suffix: &str) -> (r: Result<u32, ResolveError>)
        ensures
            r matches Ok(id) ==> single_match(self.suffix_matches(suffix@)) == Ok::<u32, Seq<u32>>(id),
            r matches Err(ResolveError::NotFound) ==> self.suffix_matches(suffix@).len() == 0,
            r matches Err(ResolveError::Ambiguous(ids)) ==> self.suffix_matches(suffix@).len() > 1
                && ids@ == self.suffix_matches(suffix@),
    {
        let mut found: Vec<u32> = Vec::new();
        let mut i: usize = 0;
        while i < self.types.len()
            invariant
                i <= self.types@.len(),
                found@ == suffix_matches(self.types@, suffix@, i as int),
            decreases self.types@.len() - i,
        {
            let text = join_path(&self.types[i].path);
            if chars_end_with(&text, suffix) {
                found.push(self.types[i].id);
            }
            i = i + 1;
        }
        if found.len() == 0 {
            Err(ResolveError::NotFound)
        } else if found.len() == 1 {
            Ok(found[0])
        } else {
            Err(ResolveError::Ambiguous(found))
        }
    }
}

} // verus!
