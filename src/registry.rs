//! The resource types of a site, each with its own loaded collection.

use crate::resource::{
    all_load, collection_of, first_failure, items_view, BuildMode, LoadError, ResourceBuilder,
    ResourceBuilderConfig, SourceFile,
};
use vstd::prelude::*;

verus! {

/// Why reloading a resource type failed.
#[derive(Debug)]
pub enum ReloadError {
    /// No resource type has this name.
    MissingResourceBuilder { name: String },
    /// The resource type's sources did not load.
    Load(LoadError),
}

/// The resource types of a site by name, each with its builder.
#[derive(Debug)]
pub struct ResourceRegistry<T> {
    pub builders: Vec<(String, ResourceBuilder<T>)>,
}

/// The names of `b`, in order.
pub open spec fn names_of<T>(b: Seq<(String, ResourceBuilder<T>)>) -> Seq<Seq<char>> {
    b.map_values(|e: (String, ResourceBuilder<T>)| e.0@)
}

/// No two entries share a name.
pub open spec fn unique_names<T>(b: Seq<(String, ResourceBuilder<T>)>) -> bool {
    forall|x: int, y: int| 0 <= x < y < b.len() ==> #[trigger] b[x].0@ != #[trigger] b[y].0@
}

impl<T> ResourceRegistry<T> {
    /// The registry is well formed: names are unique.
    pub open spec fn wf(&self) -> bool {
        unique_names(self.builders@)
    }

    /// A registry with no resource types.
    pub fn new() -> (r: Self)
        ensures
            r.wf(),
            r.builders@.len() == 0,
    {
        ResourceRegistry { builders: Vec::new() }
    }

    /// Position of the resource type `name`, or the number of types.
    pub fn position(&self, name: &str) -> (r: usize)
        ensures
            r <= self.builders@.len(),
            r < self.builders@.len() ==> self.builders@[r as int].0@ == name@,
            r == self.builders@.len() ==> forall|k: int| 0 <= k < self.builders@.len() ==> #[trigger] self.builders@[k].0@ != name@,
    {
        let key = String::from_str(name);
        let mut k: usize = 0;
        while k < self.builders.len()
            invariant
                key@ == name@,
                k <= self.builders@.len(),
                forall|j: int| 0 <= j < k ==> #[trigger] self.builders@[j].0@ != name@,
            decreases self.builders@.len() - k,
        {
            if self.builders[k].0 == key {
                return k;
            }
            k = k + 1;
        }
        k
    }

    /// Replaces every resource type by a fresh builder, with nothing loaded,
    /// one per entry of `configs` (whose names, the keys of the site's
    /// resource map, are distinct), in the same order.
    pub fn reload(&mut self, configs: Vec<(String, ResourceBuilderConfig)>)
        requires
            forall|x: int, y: int| 0 <= x < y < configs@.len() ==> #[trigger] configs@[x].0@ != #[trigger] configs@[y].0@,
        ensures
            final(self).wf(),
            final(self).builders@.len() == configs@.len(),
            forall|k: int| 0 <= k < configs@.len() ==> {
                &&& (#[trigger] final(self).builders@[k]).0@ == configs@[k].0@
                &&& final(self).builders@[k].1.config == configs@[k].1
                &&& final(self).builders@[k].1.loaded_metadata@.len() == 0
            },
    {
        let ghost all = configs@;
        let n = configs.len();
        let mut fresh: Vec<(String, ResourceBuilder<T>)> = Vec::new();
        let mut rest = configs;
        let mut i: usize = 0;
        while rest.len() > 0
            invariant
                n == all.len(),
                i <= n,
                rest@ == all.subrange(i as int, n as int),
                fresh@.len() == i,
                forall|k: int| 0 <= k < i ==> {
                    &&& (#[trigger] fresh@[k]).0@ == all[k].0@
                    &&& fresh@[k].1.config == all[k].1
                    &&& fresh@[k].1.loaded_metadata@.len() == 0
                },
            decreases rest@.len(),
        {
            let (name, config) = rest.remove(0);
            assert((name, config) == all[i as int]);
            fresh.push((name, ResourceBuilder::new(config)));
            i = i + 1;
        }
        self.builders = fresh;
        assert forall|x: int, y: int| 0 <= x < y < self.builders@.len() implies #[trigger] self.builders@[x].0@ != #[trigger] self.builders@[y].0@ by {
            assert(self.builders@[x].0@ == all[x].0@);
            assert(self.builders@[y].0@ == all[y].0@);
        }
    }

    /// Reloads the collection of the resource type `name` from `files`,
    /// leaving every other type as it was. On failure nothing changes.
    pub fn reload_resource_builder(&mut self, name: &str, files: Vec<SourceFile<T>>, mode: BuildMode, cdn_url: &str) -> (r: Result<(), ReloadError>)
        requires
            old(self).wf(),
        ensures
            final(self).wf(),
            final(self).builders@.len() == old(self).builders@.len(),
            names_of(final(self).builders@) == names_of(old(self).builders@),
            forall|k: int| 0 <= k < old(self).builders@.len() && old(self).builders@[k].0@ != name@
                ==> #[trigger] final(self).builders@[k] == old(self).builders@[k],
            (r is Err) ==> final(self).builders@ == old(self).builders@,
            (r matches Err(ReloadError::MissingResourceBuilder { name: n })) <==> (forall|k: int| 0 <= k < old(self).builders@.len() ==> #[trigger] old(self).builders@[k].0@ != name@),
            r matches Err(ReloadError::MissingResourceBuilder { name: n }) ==> n@ == name@,
            forall|k: int| 0 <= k < old(self).builders@.len() && #[trigger] old(self).builders@[k].0@ == name@ ==> {
                &&& (r is Ok <==> all_load(files@, cdn_url@))
                &&& final(self).builders@[k].1.config == old(self).builders@[k].1.config
                &&& r is Ok ==> items_view(final(self).builders@[k].1.loaded_metadata@) == collection_of(files@, cdn_url@, mode)
                &&& r matches Err(ReloadError::Load(e)) ==> exists|j: int| #[trigger] first_failure(files@, cdn_url@, j, e@)
            },
    {
        let p = self.position(name);
        if p == self.builders.len() {
            return Err(ReloadError::MissingResourceBuilder { name: String::from_str(name) });
        }
        let ghost before = self.builders@;
        let (entry_name, mut builder) = self.builders.remove(p);
        let loaded = builder.load_all(files, mode, cdn_url);
        self.builders.insert(p, (entry_name, builder));
        proof {
            assert(self.builders@ == before.update(p as int, self.builders@[p as int]));
            assert(names_of(self.builders@) == names_of(before));
            assert forall|x: int, y: int| 0 <= x < y < self.builders@.len() implies #[trigger] self.builders@[x].0@ != #[trigger] self.builders@[y].0@ by {
                assert(self.builders@[x].0@ == before[x].0@);
                assert(self.builders@[y].0@ == before[y].0@);
            }
            assert forall|k: int| 0 <= k < before.len() && #[trigger] before[k].0@ == name@ implies k == p by {
                if k < p {
                    assert(before[k].0@ != before[p as int].0@);
                } else if k > p {
                    assert(before[p as int].0@ != before[k].0@);
                }
            }
        }
        match loaded {
            Ok(()) => Ok(()),
            Err(e) => {
                assert(self.builders@ == before);
                Err(ReloadError::Load(e))
            },
        }
    }
}

} // verus!
