use vstd::prelude::*;
use vstd::string::StringSliceAdditionalSpecFns;
use crate::class_parser::attributes::bytes_eq;

verus! {

/// One class found in an archive: its binary name, and the position of the
/// archive in `ClassLoader::archives`.
#[derive(Debug)]
pub struct ClassEntry {
    pub name: Vec<u8>,
    pub archive: usize,
}

/// Maps class names to the module archives that hold them. Later entries
/// take precedence over earlier ones with the same name.
#[derive(Debug)]
pub struct ClassLoader {
    pub classes: Vec<ClassEntry>,
    pub archives: Vec<String>,
}

/// The archive recorded last for the class `name`.
pub open spec fn lookup(s: Seq<ClassEntry>, name: Seq<u8>) -> Option<usize>
    decreases s.len(),
{
    if s.len() == 0 {
        None
    } else if s.last().name@ == name {
        Some(s.last().archive)
    } else {
        lookup(s.drop_last(), name)
    }
}

/// The suffix ".class", as bytes.
pub open spec fn class_suffix() -> Seq<u8> {
    seq![46u8, 99u8, 108u8, 97u8, 115u8, 115u8]
}

/// An archive entry that holds a class: `classes/<name>.class`.
pub open spec fn is_class_file(b: Seq<u8>) -> bool {
    b.len() >= 14 && b.subrange(b.len() - 6, b.len() as int) == class_suffix()
}

/// The class name of such an entry, without its directory and suffix.
pub open spec fn class_name_of(b: Seq<u8>) -> Seq<u8> {
    b.subrange(8, b.len() - 6)
}

/// Some entry among `names` is a class file with the class name `name`.
pub open spec fn names_class(names: Seq<String>, name: Seq<u8>) -> bool {
    exists|j: int|
        0 <= j < names.len() && is_class_file(#[trigger] spec_bytes_of(names[j]@))
            && class_name_of(spec_bytes_of(names[j]@)) == name
}

/// The UTF-8 bytes of a string's characters.
pub open spec fn spec_bytes_of(s: Seq<char>) -> Seq<u8> {
    vstd::utf8::encode_utf8(s)
}

/// Whether `b` ends with ".class" and is long enough to hold the directory.
fn ends_with_class(b: &[u8]) -> (r: bool)
    ensures
        r == is_class_file(b@),
{
    if b.len() < 14 {
        return false;
    }
    let n = b.len();
    let r = b[n - 6] == 46 && b[n - 5] == 99 && b[n - 4] == 108 && b[n - 3] == 97 && b[n - 2]
        == 115 && b[n - 1] == 115;
    proof {
        let t = b@.subrange(n - 6, n as int);
        if r {
            assert(t =~= class_suffix());
        } else {
            assert(t[0] != 46 || t[1] != 99 || t[2] != 108 || t[3] != 97 || t[4] != 115 || t[5]
                != 115);
        }
    }
    r
}

/// The bytes of `b` from `start` up to `end`.
fn copy_range(b: &[u8], start: usize, end: usize) -> (r: Vec<u8>)
    requires
        start <= end <= b@.len(),
    ensures
        r@ == b@.subrange(start as int, end as int),
{
    let mut out: Vec<u8> = Vec::new();
    let mut i: usize = start;
    while i < end
        invariant
            start <= i <= end <= b@.len(),
            out@ == b@.subrange(start as int, i as int),
        decreases end - i,
    {
        out.push(b[i]);
        assert(out@ =~= b@.subrange(start as int, i + 1));
        i = i + 1;
    }
    out
}

impl ClassLoader {
    /// An empty loader.
    pub fn new() -> (r: ClassLoader)
        ensures
            r.classes@.len() == 0,
            r.archives@.len() == 0,
    {
        ClassLoader { classes: Vec::new(), archives: Vec::new() }
    }

    /// Records the archive `archive`, whose entries are `file_names`: every
    /// entry `classes/<name>.class` maps `<name>` to this archive.
    pub fn add_archive(&mut self, archive: String, file_names: &Vec<String>)
        ensures
            final(self).archives@ == old(self).archives@.push(archive),
            forall|name: Seq<u8>|
                #[trigger] lookup(final(self).classes@, name) == if names_class(file_names@, name) {
                    Some(old(self).archives@.len() as usize)
                } else {
                    lookup(old(self).classes@, name)
                },
    {
        let index = self.archives.len();
        self.archives.push(archive);
        let ghost old_classes = self.classes@;
        let mut i: usize = 0;
        while i < file_names.len()
            invariant
                i <= file_names@.len(),
                index == old(self).archives@.len(),
                self.archives@ == old(self).archives@.push(archive),
                old_classes == old(self).classes@,
                forall|name: Seq<u8>|
                    #[trigger] lookup(self.classes@, name) == if names_class(
                        file_names@.take(i as int),
                        name,
                    ) {
                        Some(index)
                    } else {
                        lookup(old_classes, name)
                    },
            decreases file_names@.len() - i,
        {
            let b = file_names[i].as_str().as_bytes();
            let ghost bi = spec_bytes_of(file_names@[i as int]@);
            assert(b@ == bi);
            let is_class = ends_with_class(b);
            let ghost before = self.classes@;
            if is_class {
                let name = copy_range(b, 8, b.len() - 6);
                self.classes.push(ClassEntry { name, archive: index });
                proof {
                    assert(self.classes@.drop_last() =~= before);
                }
            }
            proof {
                let prefix = file_names@.take(i as int);
                let next = file_names@.take(i + 1);
                assert(next[i as int] == file_names@[i as int]);
                assert forall|name: Seq<u8>|
                    names_class(next, name) == (names_class(prefix, name) || (is_class_file(bi)
                        && class_name_of(bi) == name)) by {
                    if names_class(prefix, name) {
                        let j = choose|j: int|
                            0 <= j < prefix.len() && is_class_file(
                                #[trigger] spec_bytes_of(prefix[j]@),
                            ) && class_name_of(spec_bytes_of(prefix[j]@)) == name;
                        assert(next[j] == prefix[j]);
                    }
                    if names_class(next, name) {
                        let j = choose|j: int|
                            0 <= j < next.len() && is_class_file(#[trigger] spec_bytes_of(next[j]@))
                                && class_name_of(spec_bytes_of(next[j]@)) == name;
                        if j < i {
                            assert(prefix[j] == next[j]);
                        }
                    }
                    if is_class_file(bi) && class_name_of(bi) == name {
                        assert(is_class_file(spec_bytes_of(next[i as int]@)));
                    }
                }
                assert forall|name: Seq<u8>|
                    #[trigger] lookup(self.classes@, name) == if names_class(next, name) {
                        Some(index)
                    } else {
                        lookup(old_classes, name)
                    } by {
                    assert(lookup(before, name) == if names_class(prefix, name) {
                        Some(index)
                    } else {
                        lookup(old_classes, name)
                    });
                }
            }
            i = i + 1;
        }
        proof {
            assert(file_names@.take(file_names@.len() as int) =~= file_names@);
        }
    }

    /// The archive that holds the class `id`, if one was recorded.
    pub fn find_class(&self, id: &str) -> (r: Option<&str>)
        ensures
            r is Some <==> (lookup(self.classes@, id.spec_bytes()) matches Some(a) && a
                < self.archives@.len()),
            r matches Some(s) ==> s@ == self.archives@[lookup(
                self.classes@,
                id.spec_bytes(),
            )->0 as int]@,
    {
        let key = id.as_bytes();
        let mut i: usize = self.classes.len();
        proof {
            assert(self.classes@.take(i as int) =~= self.classes@);
        }
        while i > 0
            invariant
                i <= self.classes@.len(),
                key@ == id.spec_bytes(),
                lookup(self.classes@.take(i as int), key@) == lookup(self.classes@, key@),
            decreases i,
        {
            proof {
                assert(self.classes@.take(i as int).drop_last() =~= self.classes@.take(i - 1));
            }
            if bytes_eq(self.classes[i - 1].name.as_slice(), key) {
                let a = self.classes[i - 1].archive;
                if a < self.archives.len() {
                    return Some(self.archives[a].as_str());
                } else {
                    return None;
                }
            }
            i = i - 1;
        }
        None
    }
}

} // verus!
