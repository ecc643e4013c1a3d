//! Files on a disk, as a model: names that lead to data, and what the steps by which
//! files are written, moved, linked and copied do to them.
use vstd::prelude::*;

verus! {

/// A step on a disk.
pub enum DiskStep<T> {
    /// Write the data to the file of that name.
    Write(Seq<char>, Seq<T>),
    /// Let the file of the first name take the place of the second.
    Rename(Seq<char>, Seq<char>),
    /// Let the second name lead to the data of the first.
    Link(Seq<char>, Seq<char>),
    /// Write the data of the first name to the file of the second.
    Copy(Seq<char>, Seq<char>),
    /// Take the name away.
    Remove(Seq<char>),
    /// Take all those names away.
    Clear(Set<Seq<char>>),
}

/// Files on a disk: names lead to data, and several names may lead to the same data.
pub struct Disk<T> {
    /// Where the data of each name are.
    pub names: Map<Seq<char>, int>,
    /// The data there.
    pub data: Map<int, Seq<T>>,
    /// A place that no name leads to, nor any after it.
    pub free: int,
}

impl<T> Disk<T> {
    /// Every name leads to data before the free place.
    pub open spec fn well_formed(self) -> bool {
        forall|n: Seq<char>| #[trigger]
            self.names.dom().contains(n) ==> self.names[n] < self.free
    }

    /// Whether there is a file of that name.
    pub open spec fn has(self, name: Seq<char>) -> bool {
        self.names.dom().contains(name)
    }

    /// The data that reading a name gives, where there is such a file.
    pub open spec fn read(self, name: Seq<char>) -> Option<Seq<T>> {
        if self.has(name) {
            Some(self.data[self.names[name]])
        } else {
            None
        }
    }

    /// Whether two names lead to the same data.
    pub open spec fn share(self, a: Seq<char>, b: Seq<char>) -> bool {
        self.has(a) && self.has(b) && self.names[a] == self.names[b]
    }

    /// Whether a name leads to data that no other name leads to.
    pub open spec fn private(self, name: Seq<char>) -> bool {
        self.has(name) && forall|n: Seq<char>|
            n != name && #[trigger] self.names.dom().contains(n) ==> self.names[n]
                != self.names[name]
    }

    /// The disk after writing to a name. Writing to a name that exists writes over its
    /// data, under whatever names they have.
    pub open spec fn written(self, name: Seq<char>, data: Seq<T>) -> Disk<T> {
        if self.has(name) {
            Disk { data: self.data.insert(self.names[name], data), ..self }
        } else {
            Disk {
                names: self.names.insert(name, self.free),
                data: self.data.insert(self.free, data),
                free: self.free + 1,
            }
        }
    }

    /// The disk after a step. Renaming moves the name and leaves the data alone, and does
    /// nothing between two names of the same data; a link is made only to a new name;
    /// copying data onto themselves empties them. A step whose first file is missing does
    /// nothing.
    pub open spec fn step(self, s: DiskStep<T>) -> Disk<T> {
        match s {
            DiskStep::Write(name, data) => self.written(name, data),
            DiskStep::Rename(from, to) => if !self.has(from) || self.share(from, to) {
                self
            } else {
                Disk { names: self.names.insert(to, self.names[from]).remove(from), ..self }
            },
            DiskStep::Link(from, to) => if self.has(from) && !self.has(to) {
                Disk { names: self.names.insert(to, self.names[from]), ..self }
            } else {
                self
            },
            DiskStep::Copy(from, to) => if !self.has(from) {
                self
            } else if self.share(from, to) {
                self.written(to, Seq::empty())
            } else {
                self.written(to, self.data[self.names[from]])
            },
            DiskStep::Remove(name) => Disk { names: self.names.remove(name), ..self },
            DiskStep::Clear(names) => Disk { names: self.names.remove_keys(names), ..self },
        }
    }
}

/// Whether no name but `name` differs between two disks: each leads where it led, and
/// reads as it read.
pub open spec fn only_changed<T>(d: Disk<T>, e: Disk<T>, name: Seq<char>) -> bool {
    forall|n: Seq<char>| n != name ==> #[trigger] same_file(d, e, n)
}

/// Whether a name leads where it led, and reads as it read.
pub open spec fn same_file<T>(d: Disk<T>, e: Disk<T>, n: Seq<char>) -> bool {
    &&& e.has(n) == d.has(n)
    &&& d.has(n) ==> e.names[n] == d.names[n]
    &&& e.read(n) == d.read(n)
}

/// A file that is copied to a name of no other data is there whole and shares its data
/// with no file, and nothing else changes.
pub proof fn law_copied_apart<T>(d: Disk<T>, from: Seq<char>, to: Seq<char>)
    requires
        d.well_formed(),
        d.has(from),
        from != to,
        d.has(to) ==> d.private(to),
    ensures
        ({
            let e = d.step(DiskStep::Copy(from, to));
            &&& e.well_formed()
            &&& e.read(to) == d.read(from)
            &&& e.private(to)
            &&& only_changed(d, e, to)
        }),
{
    let e = d.step(DiskStep::Copy(from, to));
    assert(d.names[from] < d.free);
    assert(!d.share(from, to));
    assert forall|n: Seq<char>| n != to implies #[trigger] same_file(d, e, n) by {
        if d.has(n) {
            assert(d.names[n] < d.free);
        }
    }
    assert forall|n: Seq<char>| n != to && #[trigger] e.names.dom().contains(n) implies e.names[n]
        != e.names[to] by {
        assert(d.names.dom().contains(n));
    }
}

/// A file that is linked to a new name reads there as it reads, and nothing else
/// changes.
pub proof fn law_linked<T>(d: Disk<T>, from: Seq<char>, to: Seq<char>)
    requires
        d.well_formed(),
        d.has(from),
        !d.has(to),
    ensures
        ({
            let e = d.step(DiskStep::Link(from, to));
            &&& e.well_formed()
            &&& e.read(to) == d.read(from)
            &&& e.share(from, to)
            &&& only_changed(d, e, to)
        }),
{
    let e = d.step(DiskStep::Link(from, to));
    assert(d.names[from] < d.free);
    assert forall|n: Seq<char>| #[trigger] e.names.dom().contains(n) implies e.names[n]
        < e.free by {
        if n != to {
            assert(d.names.dom().contains(n));
        }
    }
}

} // verus!
