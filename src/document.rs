use vstd::prelude::*;

verus! {

/// One cell of a document.
#[derive(Clone, Debug, PartialEq, Eq)]
pub enum Value {
    /// String data.
    String(String),
    /// Any other value (number, boolean, array, nested dictionary), held as
    /// the text that the document format renders for it.
    Other(String),
}

/// The text under which a value is matched against a projected field name.
pub open spec fn label_of(v: Value) -> Seq<char> {
    match v {
        Value::String(s) => s@,
        Value::Other(t) => t@,
    }
}

/// A value is a separator cell when it is a string made of `-` only.
pub open spec fn is_separator_cell(v: Value) -> bool {
    match v {
        Value::String(s) => forall|i: int| 0 <= i < s@.len() ==> s@[i] == '-',
        Value::Other(_) => false,
    }
}

impl Value {
    /// An owned copy of this value.
    pub fn copy(&self) -> (r: Value)
        ensures
            r == *self,
    {
        match self {
            Value::String(s) => Value::String(s.clone()),
            Value::Other(t) => Value::Other(t.clone()),
        }
    }

    pub fn is_string(&self) -> (r: bool)
        ensures
            r == (self is String),
    {
        match self {
            Value::String(_) => true,
            Value::Other(_) => false,
        }
    }

    /// The text under which this value is matched against a field name.
    pub fn label(&self) -> (r: &String)
        ensures
            r@ == label_of(*self),
    {
        match self {
            Value::String(s) => s,
            Value::Other(t) => t,
        }
    }

    /// Whether this value is a string made of `-` only.
    pub fn is_separator(&self) -> (r: bool)
        ensures
            r == is_separator_cell(*self),
    {
        match self {
            Value::String(s) => {
                let t: &str = s.as_str();
                let n: usize = t.unicode_len();
                let mut i: usize = 0;
                while i < n
                    invariant
                        *self == Value::String(*s),
                        n == s@.len(),
                        t@ == s@,
                        i <= n,
                        forall|j: int| 0 <= j < i ==> s@[j] == '-',
                    decreases n - i,
                {
                    if t.get_char(i) != '-' {
                        assert(s@[i as int] != '-');
                        assert(!(forall|j: int| 0 <= j < s@.len() ==> s@[j] == '-'));
                        assert(label_of(*self) == s@);
                        return false;
                    }
                    i = i + 1;
                }
                true
            },
            Value::Other(_) => false,
        }
    }
}

/// A block of a document: rows of cells, or a flat dictionary.
#[derive(Clone, Debug)]
pub enum Section {
    /// Rows of cells; the first two may be a header and a separator row.
    Tabular(Vec<Vec<Value>>),
    /// Field names, each with one value.
    Dictionary(Vec<(String, Value)>),
}

impl Section {
    /// The section that a block with these entries and rows is: tabular
    /// exactly when it has at least one row.
    pub fn from_parts(dictionary: Vec<(String, Value)>, rows: Vec<Vec<Value>>) -> (r: Section)
        ensures
            rows.len() == 0 ==> r == Section::Dictionary(dictionary),
            rows.len() > 0 ==> r == Section::Tabular(rows),
    {
        if rows.len() == 0 {
            Section::Dictionary(dictionary)
        } else {
            Section::Tabular(rows)
        }
    }
}

/// A section with its name.
pub struct NamedSection {
    pub name: String,
    pub section: Section,
}

/// A document: named sections, in order.
pub struct Document {
    pub sections: Vec<NamedSection>,
}

/// The first entry of `s` whose key is `k`, with its value.
pub open spec fn find_entry<V>(s: Seq<(String, V)>, k: Seq<char>) -> Option<V>
    decreases s.len(),
{
    if s.len() == 0 {
        None
    } else if s[0].0@ == k {
        Some(s[0].1)
    } else {
        find_entry(s.drop_first(), k)
    }
}

/// The first section of `s` named `k`.
pub open spec fn find_section(s: Seq<NamedSection>, k: Seq<char>) -> Option<Section>
    decreases s.len(),
{
    if s.len() == 0 {
        None
    } else if s[0].name@ == k {
        Some(s[0].section)
    } else {
        find_section(s.drop_first(), k)
    }
}

/// Looks `k` up among the entries of `s`, the first match winning.
pub fn lookup_entry<'a, V>(s: &'a Vec<(String, V)>, k: &String) -> (r: Option<&'a V>)
    ensures
        match find_entry(s@, k@) {
            Some(v) => r == Some(&v),
            None => r is None,
        },
{
    let mut i: usize = 0;
    assert(s@.subrange(0, s@.len() as int) =~= s@);
    while i < s.len()
        invariant
            i <= s@.len(),
            find_entry(s@, k@) == find_entry(s@.subrange(i as int, s@.len() as int), k@),
        decreases s.len() - i,
    {
        assert(s@.subrange(i as int, s@.len() as int).drop_first() =~= s@.subrange(
            i + 1,
            s@.len() as int,
        ));
        assert(s@.subrange(i as int, s@.len() as int)[0] == s@[i as int]);
        if s[i].0 == *k {
            return Some(&s[i].1);
        }
        i = i + 1;
    }
    None
}

impl Document {
    /// The first section named `name`.
    pub fn get(&self, name: &str) -> (r: Option<&Section>)
        ensures
            match find_section(self.sections@, name@) {
                Some(s) => r == Some(&s),
                None => r is None,
            },
    {
        let k: String = name.to_owned();
        let s = &self.sections;
        let mut i: usize = 0;
        assert(s@.subrange(0, s@.len() as int) =~= s@);
        while i < s.len()
            invariant
                i <= s@.len(),
                k@ == name@,
                s@ == self.sections@,
                find_section(s@, k@) == find_section(s@.subrange(i as int, s@.len() as int), k@),
            decreases s.len() - i,
        {
            assert(s@.subrange(i as int, s@.len() as int).drop_first() =~= s@.subrange(
                i + 1,
                s@.len() as int,
            ));
            assert(s@.subrange(i as int, s@.len() as int)[0] == s@[i as int]);
            if s[i].name == k {
                assert(find_section(s@, name@) == Some(s@[i as int].section));
                return Some(&s[i].section);
            }
            i = i + 1;
        }
        None
    }
}

} // verus!
