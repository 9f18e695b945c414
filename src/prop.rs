use vstd::prelude::*;

verus! {

/// What a module descriptor (`module.prop`) says of the module.
pub struct ModuleProp {
    pub name: String,
    pub version: String,
    pub author: String,
    pub description: String,
}

/// Index of the first `c` in `s` at or after `i`, or -1.
pub open spec fn index_of(s: Seq<char>, c: char, i: int) -> int
    decreases s.len() - i,
{
    if i < 0 || i >= s.len() {
        -1
    } else if s[i] == c {
        i
    } else {
        index_of(s, c, i + 1)
    }
}

/// The string without its leading and trailing whitespace.
pub uninterp spec fn trim_of(s: Seq<char>) -> Seq<char>;

/// Relies on `str::split_once` with a `char` pattern: it splits around the
/// first occurrence of the character, and gives nothing when there is none.
#[verifier::external_body]
fn split_at_equals(line: &str) -> (r: Option<(String, String)>)
    ensures
        match r {
            None => index_of(line@, '=', 0) == -1,
            Some(kv) => index_of(line@, '=', 0) != -1
                && kv.0@ == line@.take(index_of(line@, '=', 0))
                && kv.1@ == line@.skip(index_of(line@, '=', 0) + 1),
        },
{
    line.split_once('=').map(|(k, v)| (k.to_string(), v.to_string()))
}

/// Relies on `str::trim`: the string without leading and trailing whitespace.
#[verifier::external_body]
fn trim(s: &str) -> (r: String)
    ensures
        r@ == trim_of(s@),
{
    s.trim().to_string()
}

/// The value that `key=value` lines give to `key`: the trimmed value of the
/// last line whose trimmed key is `key`, or empty when none is.
pub open spec fn prop_value(lines: Seq<Seq<char>>, key: Seq<char>) -> Seq<char>
    decreases lines.len(),
{
    if lines.len() == 0 {
        Seq::empty()
    } else {
        let l = lines.last();
        let i = index_of(l, '=', 0);
        if i != -1 && trim_of(l.take(i)) == key {
            trim_of(l.skip(i + 1))
        } else {
            prop_value(lines.drop_last(), key)
        }
    }
}

pub open spec fn key_name() -> Seq<char> {
    seq!['n', 'a', 'm', 'e']
}

pub open spec fn key_version() -> Seq<char> {
    seq!['v', 'e', 'r', 's', 'i', 'o', 'n']
}

pub open spec fn key_author() -> Seq<char> {
    seq!['a', 'u', 't', 'h', 'o', 'r']
}

pub open spec fn key_description() -> Seq<char> {
    seq!['d', 'e', 's', 'c', 'r', 'i', 'p', 't', 'i', 'o', 'n']
}

/// Reads name, version, author and description from the descriptor's lines;
/// other keys and lines without `=` are ignored.
pub fn parse_module_prop(lines: &Vec<String>) -> (r: ModuleProp)
    ensures
        r.name@ == prop_value(lines@.map_values(|l: String| l@), key_name()),
        r.version@ == prop_value(lines@.map_values(|l: String| l@), key_version()),
        r.author@ == prop_value(lines@.map_values(|l: String| l@), key_author()),
        r.description@ == prop_value(lines@.map_values(|l: String| l@), key_description()),
{
    proof {
        reveal_strlit("name");
        reveal_strlit("version");
        reveal_strlit("author");
        reveal_strlit("description");
    }
    let k_name = "name".to_owned();
    let k_version = "version".to_owned();
    let k_author = "author".to_owned();
    let k_description = "description".to_owned();
    assert(k_name@ =~= key_name());
    assert(k_version@ =~= key_version());
    assert(k_author@ =~= key_author());
    assert(k_description@ =~= key_description());
    let ghost lv = lines@.map_values(|l: String| l@);
    let mut r = ModuleProp {
        name: String::new(),
        version: String::new(),
        author: String::new(),
        description: String::new(),
    };
    let mut i: usize = 0;
    while i < lines.len()
        invariant
            i <= lines.len(),
            lv == lines@.map_values(|l: String| l@),
            k_name@ == key_name(),
            k_version@ == key_version(),
            k_author@ == key_author(),
            k_description@ == key_description(),
            r.name@ == prop_value(lv.take(i as int), key_name()),
            r.version@ == prop_value(lv.take(i as int), key_version()),
            r.author@ == prop_value(lv.take(i as int), key_author()),
            r.description@ == prop_value(lv.take(i as int), key_description()),
        decreases lines.len() - i,
    {
        proof {
            assert(lv.take(i + 1).drop_last() =~= lv.take(i as int));
            assert(lv.take(i + 1).last() == lines@[i as int]@);
        }
        match split_at_equals(lines[i].as_str()) {
            Some(kv) => {
                let key = trim(kv.0.as_str());
                let val = trim(kv.1.as_str());
                if key == k_name {
                    r.name = val;
                } else if key == k_version {
                    r.version = val;
                } else if key == k_author {
                    r.author = val;
                } else if key == k_description {
                    r.description = val;
                }
            },
            None => {},
        }
        i = i + 1;
    }
    assert(lv.take(i as int) =~= lv);
    r
}

} // verus!
