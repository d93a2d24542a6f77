use std::collections::BTreeMap;
use std::sync::Arc;
use vstd::prelude::*;

use crate::names::NameTable;
use crate::text::{find_marker, first_marker, marker_at, provider_marker};
use crate::{share, Fd};

verus! {

/// An open file: the provider's own handle, the descriptor, and the provider
/// that serves it.
pub struct File<Ops> {
    pub data: usize,
    pub fd: Fd,
    pub ops: Arc<Ops>,
}

/// The abstract state of the dispatcher.
pub struct UvfsView<Ops> {
    /// The providers registered under a name.
    pub registered: Map<Seq<char>, Arc<Ops>>,
    /// The open files, by descriptor.
    pub opened: Map<Fd, Arc<File<Ops>>>,
    /// The provider for paths that name no registered one.
    pub default_ops: Arc<Ops>,
}

/// Routes file operations to providers: a path `name@uvfs://file` goes to the
/// provider registered as `name` (or the default one), any other path to the
/// default provider; open files are kept by descriptor.
pub struct UVFS<Ops> {
    registered_ops: NameTable<Arc<Ops>>,
    opened_files: BTreeMap<Fd, Arc<File<Ops>>>,
    default_ops: Arc<Ops>,
}

impl<Ops> UvfsView<Ops> {
    /// The provider that serves the name `name`.
    pub open spec fn provider_for(self, name: Seq<char>) -> Arc<Ops> {
        if self.registered.contains_key(name) {
            self.registered[name]
        } else {
            self.default_ops
        }
    }
}

/// What `register_operation(name, ops)` does: `name` now stands for a handle
/// to `ops`, and nothing else changes.
pub open spec fn registers<Ops>(
    before: UvfsView<Ops>,
    after: UvfsView<Ops>,
    name: Seq<char>,
    ops: Ops,
) -> bool {
    &&& after.registered.contains_key(name)
    &&& *after.registered[name] == ops
    &&& after == (UvfsView { registered: before.registered.insert(name, after.registered[name]), ..before })
}

/// What `get_file(fd)` does: it hands back the file open under `fd`, and
/// where there is none it first records a file for `fd`, with no provider
/// handle of its own (`data` 0), served by the default provider.
pub open spec fn got_file<Ops>(
    before: UvfsView<Ops>,
    after: UvfsView<Ops>,
    fd: Fd,
    r: Arc<File<Ops>>,
) -> bool {
    if before.opened.contains_key(fd) {
        r == before.opened[fd] && after == before
    } else {
        &&& r.data == 0
        &&& r.fd == fd
        &&& r.ops == before.default_ops
        &&& after == (UvfsView { opened: before.opened.insert(fd, r), ..before })
    }
}

impl<Ops> View for UVFS<Ops> {
    type V = UvfsView<Ops>;

    closed spec fn view(&self) -> UvfsView<Ops> {
        UvfsView {
            registered: self.registered_ops@,
            opened: self.opened_files@,
            default_ops: self.default_ops,
        }
    }
}

impl<Ops> UVFS<Ops> {
    #[verifier::type_invariant]
    spec fn files_under_own_fd(&self) -> bool {
        forall|fd: Fd| #[trigger]
            self.opened_files@.contains_key(fd) ==> self.opened_files@[fd].fd == fd
    }

    /// A dispatcher with no registered provider and no open file.
    pub fn new(default_ops: Ops) -> (v: Self)
        ensures
            v@.registered == Map::<Seq<char>, Arc<Ops>>::empty(),
            v@.opened == Map::<Fd, Arc<File<Ops>>>::empty(),
            *v@.default_ops == default_ops,
    {
        UVFS {
            registered_ops: NameTable::new(),
            opened_files: BTreeMap::new(),
            default_ops: Arc::new(default_ops),
        }
    }

    /// Registers `ops` under the name `s`, replacing any provider of that name.
    pub fn register_operation(&mut self, s: &str, ops: Ops)
        ensures
            registers(old(self)@, final(self)@, s@, ops),
    {
        proof {
            use_type_invariant(&*self);
        }
        let name: String = s.to_owned();
        let mut table = NameTable::new();
        std::mem::swap(&mut table, &mut self.registered_ops);
        table.insert(name, Arc::new(ops));
        self.registered_ops = table;
        assert(self@.registered =~= old(self)@.registered.insert(s@, self@.registered[s@]));
    }

    /// The provider registered under `s`, or the default one.
    pub fn get_registered_operations(&self, s: &str) -> (r: Arc<Ops>)
        ensures
            r == self@.provider_for(s@),
    {
        match self.registered_ops.get(s) {
            Some(ops) => share(ops),
            None => share(&self.default_ops),
        }
    }

    /// Splits `s` at the first `@uvfs://`: the provider named before it serves
    /// the file named after it. A path without the marker goes, whole, to the
    /// default provider.
    pub fn choose_provider<'a>(&self, s: &'a str) -> (r: (Arc<Ops>, &'a str))
        ensures
            forall|i: int| #[trigger] first_marker(s@, i) ==> {
                &&& r.0 == self@.provider_for(s@.take(i))
                &&& r.1@ == s@.skip(i + provider_marker().len())
            },
            (forall|i: int| !marker_at(s@, i)) ==> r.0 == self@.default_ops && r.1@ == s@,
    {
        match find_marker(s) {
            Some(i) => {
                let len = s.unicode_len();
                let first = s.substring_char(0, i);
                let rest = s.substring_char(i + 8, len);
                assert(first@ =~= s@.take(i as int));
                assert(rest@ =~= s@.skip(i + provider_marker().len()));
                proof {
                    assert forall|j: int| #[trigger] first_marker(s@, j) implies j == i by {
                        if j < i {
                            assert(!marker_at(s@, j));
                        }
                        if j > i {
                            assert(!marker_at(s@, i as int));
                        }
                    }
                }
                (self.get_registered_operations(first), rest)
            },
            None => (share(&self.default_ops), s),
        }
    }

    /// Records `f` as open under its descriptor, replacing a file recorded
    /// there; returns the shared handle that the table now holds.
    pub fn add_file(&mut self, f: File<Ops>) -> (r: Arc<File<Ops>>)
        ensures
            *r == f,
            final(self)@ == (UvfsView {
                opened: old(self)@.opened.insert(f.fd, r),
                ..old(self)@
            }),
    {
        proof {
            use_type_invariant(&*self);
        }
        let af = Arc::new(f);
        let mut files = BTreeMap::new();
        std::mem::swap(&mut files, &mut self.opened_files);
        files.insert(af.fd, share(&af));
        self.opened_files = files;
        af
    }

    /// Forgets the file open under `fd` and hands it back, if there was one.
    pub fn remove_file(&mut self, fd: Fd) -> (r: Option<Arc<File<Ops>>>)
        ensures
            r == (if old(self)@.opened.contains_key(fd) {
                Some(old(self)@.opened[fd])
            } else {
                None
            }),
            r matches Some(f) ==> f.fd == fd,
            final(self)@ == (UvfsView { opened: old(self)@.opened.remove(fd), ..old(self)@ }),
    {
        proof {
            use_type_invariant(&*self);
        }
        let mut files = BTreeMap::new();
        std::mem::swap(&mut files, &mut self.opened_files);
        let r = files.remove(&fd);
        self.opened_files = files;
        r
    }

    /// The file open under `fd`. A descriptor that the table does not know is
    /// taken to be one of the system's own: it is recorded on the spot, served
    /// by the default provider.
    pub fn get_file(&mut self, fd: Fd) -> (r: Arc<File<Ops>>)
        ensures
            r.fd == fd,
            got_file(old(self)@, final(self)@, fd, r),
    {
        proof {
            use_type_invariant(&*self);
        }
        match self.opened_files.get(&fd) {
            Some(f) => share(f),
            None => {
                let ops = share(&self.default_ops);
                self.add_file(File { data: 0, fd, ops })
            },
        }
    }
}

/// A provider registered under a name is the one that name then finds, and
/// every other name finds what it found before.
pub proof fn law_registered_provider_is_found<Ops>(
    before: UvfsView<Ops>,
    after: UvfsView<Ops>,
    name: Seq<char>,
    ops: Ops,
)
    requires
        registers(before, after, name, ops),
    ensures
        *after.provider_for(name) == ops,
        forall|other: Seq<char>| other != name ==> #[trigger] after.provider_for(other)
            == before.provider_for(other),
{
}

/// A file added under a descriptor is what removing that descriptor hands
/// back, and the table is then as it was with the descriptor forgotten.
pub proof fn law_removed_file_is_the_added_one<Ops>(
    before: UvfsView<Ops>,
    f: File<Ops>,
    added: Arc<File<Ops>>,
)
    requires
        *added == f,
    ensures
        before.opened.insert(f.fd, added).contains_key(f.fd),
        before.opened.insert(f.fd, added)[f.fd] == added,
        before.opened.insert(f.fd, added).remove(f.fd) == before.opened.remove(f.fd),
{
    assert(before.opened.insert(f.fd, added).remove(f.fd) =~= before.opened.remove(f.fd));
}

/// Once a descriptor is removed, removing it again finds nothing.
pub proof fn law_second_remove_finds_nothing<Ops>(before: UvfsView<Ops>, fd: Fd)
    ensures
        !before.opened.remove(fd).contains_key(fd),
{
}

/// Asking twice for the file under a descriptor gives the same file, and the
/// second request changes nothing.
pub proof fn law_get_file_is_stable<Ops>(
    v0: UvfsView<Ops>,
    v1: UvfsView<Ops>,
    v2: UvfsView<Ops>,
    fd: Fd,
    r1: Arc<File<Ops>>,
    r2: Arc<File<Ops>>,
)
    requires
        got_file(v0, v1, fd, r1),
        got_file(v1, v2, fd, r2),
    ensures
        r2 == r1,
        v2 == v1,
{
}

proof fn lemma_marker_starts_once()
    ensures
        provider_marker().len() == 8,
        provider_marker()[0] == '@',
        forall|k: int| 1 <= k < 8 ==> provider_marker()[k] != '@',
{
    let m = provider_marker();
    assert(m[1] == 'u' && m[2] == 'v' && m[3] == 'f' && m[4] == 's');
    assert(m[5] == ':' && m[6] == '/' && m[7] == '/');
}

/// In a path `name@uvfs://file` whose `name` holds no marker, the marker
/// that `choose_provider` splits at is the one after `name`: the provider is
/// the one `name` finds, and the file name is `file`.
pub proof fn law_routed_path(name: Seq<char>, file: Seq<char>)
    requires
        forall|i: int| !marker_at(name, i),
    ensures
        first_marker(name + provider_marker() + file, name.len() as int),
        (name + provider_marker() + file).take(name.len() as int) == name,
        (name + provider_marker() + file).skip((name.len() + provider_marker().len()) as int) == file,
{
    let m = provider_marker();
    let s = name + m + file;
    let n = name.len() as int;
    lemma_marker_starts_once();
    assert(s.subrange(n, n + 8) =~= m);
    assert(s[n] == '@') by {
        assert(s.subrange(n, n + 8)[0] == s[n]);
    }
    assert forall|j: int| 0 <= j < n implies !marker_at(s, j) by {
        if marker_at(s, j) {
            let w = s.subrange(j, j + 8);
            if j + 8 <= n {
                assert(name.subrange(j, j + 8) =~= w);
                assert(marker_at(name, j));
            } else {
                assert(w[n - j] == s[n]);
                assert(m[n - j] != '@');
            }
        }
    }
    assert(s.take(n) =~= name);
    assert(s.skip(n + 8) =~= file);
}

} // verus!
