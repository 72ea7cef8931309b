//! Configuration calls on the two builder resources.  Each call mutates
//! the builder in place; the builder is later consumed by its terminal
//! open operation.

use vstd::prelude::*;
use crate::bridge::Bridge;
use crate::error::BridgeError;
use crate::table::{slot_of, OpenerCfg, OptionsCfg, Resource};
use crate::values::{Cipher, MemLimit, OpsLimit};

verus! {

impl Bridge {
    /// Sets the operations-cost tier the opener will derive keys with.
    pub fn opener_ops_limit(&mut self, token: usize, limit: OpsLimit) -> (r: Result<(), BridgeError>)
        requires
            old(self).wf(),
        ensures
            final(self).wf(),
            final(self).repos == old(self).repos,
            match r {
                Ok(_) => slot_of(old(self).table.slots@, token) matches Some(
                    Resource::Opener(cfg),
                ) && final(self).table.slots@ == old(self).table.slots@.update(
                    token as int,
                    Some(Resource::Opener(OpenerCfg { ops_limit: limit, ..cfg })),
                ),
                Err(e) => *final(self) == *old(self) && !(slot_of(
                    old(self).table.slots@,
                    token,
                ) matches Some(Resource::Opener(_))) && e == (if slot_of(
                    old(self).table.slots@,
                    token,
                ) is None {
                    BridgeError::NoResourceAttached
                } else {
                    BridgeError::WrongResourceKind
                }),
            },
    {
        let cfg = match self.get_opener(token) {
            Ok(c) => c,
            Err(e) => return Err(e),
        };
        let mut c = cfg;
        c.ops_limit = limit;
        self.table.slots.set(token, Some(Resource::Opener(c)));
        Ok(())
    }

    /// Sets the memory-cost tier the opener will derive keys with.
    pub fn opener_mem_limit(&mut self, token: usize, limit: MemLimit) -> (r: Result<(), BridgeError>)
        requires
            old(self).wf(),
        ensures
            final(self).wf(),
            final(self).repos == old(self).repos,
            match r {
                Ok(_) => slot_of(old(self).table.slots@, token) matches Some(
                    Resource::Opener(cfg),
                ) && final(self).table.slots@ == old(self).table.slots@.update(
                    token as int,
                    Some(Resource::Opener(OpenerCfg { mem_limit: limit, ..cfg })),
                ),
                Err(e) => *final(self) == *old(self) && !(slot_of(
                    old(self).table.slots@,
                    token,
                ) matches Some(Resource::Opener(_))) && e == (if slot_of(
                    old(self).table.slots@,
                    token,
                ) is None {
                    BridgeError::NoResourceAttached
                } else {
                    BridgeError::WrongResourceKind
                }),
            },
    {
        let cfg = match self.get_opener(token) {
            Ok(c) => c,
            Err(e) => return Err(e),
        };
        let mut c = cfg;
        c.mem_limit = limit;
        self.table.slots.set(token, Some(Resource::Opener(c)));
        Ok(())
    }

    /// Sets the cipher a created repository will encrypt with.
    pub fn opener_cipher(&mut self, token: usize, cipher: Cipher) -> (r: Result<(), BridgeError>)
        requires
            old(self).wf(),
        ensures
            final(self).wf(),
            final(self).repos == old(self).repos,
            match r {
                Ok(_) => slot_of(old(self).table.slots@, token) matches Some(
                    Resource::Opener(cfg),
                ) && final(self).table.slots@ == old(self).table.slots@.update(
                    token as int,
                    Some(Resource::Opener(OpenerCfg { cipher, ..cfg })),
                ),
                Err(e) => *final(self) == *old(self) && !(slot_of(
                    old(self).table.slots@,
                    token,
                ) matches Some(Resource::Opener(_))) && e == (if slot_of(
                    old(self).table.slots@,
                    token,
                ) is None {
                    BridgeError::NoResourceAttached
                } else {
                    BridgeError::WrongResourceKind
                }),
            },
    {
        let cfg = match self.get_opener(token) {
            Ok(c) => c,
            Err(e) => return Err(e),
        };
        let mut c = cfg;
        c.cipher = cipher;
        self.table.slots.set(token, Some(Resource::Opener(c)));
        Ok(())
    }

    /// Sets whether the opener may create a missing repository.
    pub fn opener_create(&mut self, token: usize, create: bool) -> (r: Result<(), BridgeError>)
        requires
            old(self).wf(),
        ensures
            final(self).wf(),
            final(self).repos == old(self).repos,
            match r {
                Ok(_) => slot_of(old(self).table.slots@, token) matches Some(
                    Resource::Opener(cfg),
                ) && final(self).table.slots@ == old(self).table.slots@.update(
                    token as int,
                    Some(Resource::Opener(OpenerCfg { create, ..cfg })),
                ),
                Err(e) => *final(self) == *old(self) && !(slot_of(
                    old(self).table.slots@,
                    token,
                ) matches Some(Resource::Opener(_))) && e == (if slot_of(
                    old(self).table.slots@,
                    token,
                ) is None {
                    BridgeError::NoResourceAttached
                } else {
                    BridgeError::WrongResourceKind
                }),
            },
    {
        let cfg = match self.get_opener(token) {
            Ok(c) => c,
            Err(e) => return Err(e),
        };
        let mut c = cfg;
        c.create = create;
        self.table.slots.set(token, Some(Resource::Opener(c)));
        Ok(())
    }

    /// Sets whether the opener insists on creating a fresh repository,
    /// failing where one already exists.
    pub fn opener_create_new(&mut self, token: usize, create_new: bool) -> (r: Result<(), BridgeError>)
        requires
            old(self).wf(),
        ensures
            final(self).wf(),
            final(self).repos == old(self).repos,
            match r {
                Ok(_) => slot_of(old(self).table.slots@, token) matches Some(
                    Resource::Opener(cfg),
                ) && final(self).table.slots@ == old(self).table.slots@.update(
                    token as int,
                    Some(Resource::Opener(OpenerCfg { create_new, ..cfg })),
                ),
                Err(e) => *final(self) == *old(self) && !(slot_of(
                    old(self).table.slots@,
                    token,
                ) matches Some(Resource::Opener(_))) && e == (if slot_of(
                    old(self).table.slots@,
                    token,
                ) is None {
                    BridgeError::NoResourceAttached
                } else {
                    BridgeError::WrongResourceKind
                }),
            },
    {
        let cfg = match self.get_opener(token) {
            Ok(c) => c,
            Err(e) => return Err(e),
        };
        let mut c = cfg;
        c.create_new = create_new;
        self.table.slots.set(token, Some(Resource::Opener(c)));
        Ok(())
    }

    /// Sets whether a created repository compresses its content.
    pub fn opener_compress(&mut self, token: usize, compress: bool) -> (r: Result<(), BridgeError>)
        requires
            old(self).wf(),
        ensures
            final(self).wf(),
            final(self).repos == old(self).repos,
            match r {
                Ok(_) => slot_of(old(self).table.slots@, token) matches Some(
                    Resource::Opener(cfg),
                ) && final(self).table.slots@ == old(self).table.slots@.update(
                    token as int,
                    Some(Resource::Opener(OpenerCfg { compress, ..cfg })),
                ),
                Err(e) => *final(self) == *old(self) && !(slot_of(
                    old(self).table.slots@,
                    token,
                ) matches Some(Resource::Opener(_))) && e == (if slot_of(
                    old(self).table.slots@,
                    token,
                ) is None {
                    BridgeError::NoResourceAttached
                } else {
                    BridgeError::WrongResourceKind
                }),
            },
    {
        let cfg = match self.get_opener(token) {
            Ok(c) => c,
            Err(e) => return Err(e),
        };
        let mut c = cfg;
        c.compress = compress;
        self.table.slots.set(token, Some(Resource::Opener(c)));
        Ok(())
    }

    /// Sets whether a created repository deduplicates content chunks.
    pub fn opener_dedup_chunk(&mut self, token: usize, dedup: bool) -> (r: Result<(), BridgeError>)
        requires
            old(self).wf(),
        ensures
            final(self).wf(),
            final(self).repos == old(self).repos,
            match r {
                Ok(_) => slot_of(old(self).table.slots@, token) matches Some(
                    Resource::Opener(cfg),
                ) && final(self).table.slots@ == old(self).table.slots@.update(
                    token as int,
                    Some(Resource::Opener(OpenerCfg { dedup_chunk: dedup, ..cfg })),
                ),
                Err(e) => *final(self) == *old(self) && !(slot_of(
                    old(self).table.slots@,
                    token,
                ) matches Some(Resource::Opener(_))) && e == (if slot_of(
                    old(self).table.slots@,
                    token,
                ) is None {
                    BridgeError::NoResourceAttached
                } else {
                    BridgeError::WrongResourceKind
                }),
            },
    {
        let cfg = match self.get_opener(token) {
            Ok(c) => c,
            Err(e) => return Err(e),
        };
        let mut c = cfg;
        c.dedup_chunk = dedup;
        self.table.slots.set(token, Some(Resource::Opener(c)));
        Ok(())
    }

    /// Sets whether the repository is opened read-only.
    pub fn opener_read_only(&mut self, token: usize, read_only: bool) -> (r: Result<(), BridgeError>)
        requires
            old(self).wf(),
        ensures
            final(self).wf(),
            final(self).repos == old(self).repos,
            match r {
                Ok(_) => slot_of(old(self).table.slots@, token) matches Some(
                    Resource::Opener(cfg),
                ) && final(self).table.slots@ == old(self).table.slots@.update(
                    token as int,
                    Some(Resource::Opener(OpenerCfg { read_only, ..cfg })),
                ),
                Err(e) => *final(self) == *old(self) && !(slot_of(
                    old(self).table.slots@,
                    token,
                ) matches Some(Resource::Opener(_))) && e == (if slot_of(
                    old(self).table.slots@,
                    token,
                ) is None {
                    BridgeError::NoResourceAttached
                } else {
                    BridgeError::WrongResourceKind
                }),
            },
    {
        let cfg = match self.get_opener(token) {
            Ok(c) => c,
            Err(e) => return Err(e),
        };
        let mut c = cfg;
        c.read_only = read_only;
        self.table.slots.set(token, Some(Resource::Opener(c)));
        Ok(())
    }

    /// Sets whether opening may override an aborted earlier session.
    pub fn opener_force(&mut self, token: usize, force: bool) -> (r: Result<(), BridgeError>)
        requires
            old(self).wf(),
        ensures
            final(self).wf(),
            final(self).repos == old(self).repos,
            match r {
                Ok(_) => slot_of(old(self).table.slots@, token) matches Some(
                    Resource::Opener(cfg),
                ) && final(self).table.slots@ == old(self).table.slots@.update(
                    token as int,
                    Some(Resource::Opener(OpenerCfg { force, ..cfg })),
                ),
                Err(e) => *final(self) == *old(self) && !(slot_of(
                    old(self).table.slots@,
                    token,
                ) matches Some(Resource::Opener(_))) && e == (if slot_of(
                    old(self).table.slots@,
                    token,
                ) is None {
                    BridgeError::NoResourceAttached
                } else {
                    BridgeError::WrongResourceKind
                }),
            },
    {
        let cfg = match self.get_opener(token) {
            Ok(c) => c,
            Err(e) => return Err(e),
        };
        let mut c = cfg;
        c.force = force;
        self.table.slots.set(token, Some(Resource::Opener(c)));
        Ok(())
    }

    /// Sets whether the file is opened for reading.
    pub fn options_read(&mut self, token: usize, read: bool) -> (r: Result<(), BridgeError>)
        requires
            old(self).wf(),
        ensures
            final(self).wf(),
            final(self).repos == old(self).repos,
            match r {
                Ok(_) => slot_of(old(self).table.slots@, token) matches Some(
                    Resource::FileOptions(cfg),
                ) && final(self).table.slots@ == old(self).table.slots@.update(
                    token as int,
                    Some(Resource::FileOptions(OptionsCfg { read, ..cfg })),
                ),
                Err(e) => *final(self) == *old(self) && !(slot_of(
                    old(self).table.slots@,
                    token,
                ) matches Some(Resource::FileOptions(_))) && e == (if slot_of(
                    old(self).table.slots@,
                    token,
                ) is None {
                    BridgeError::NoResourceAttached
                } else {
                    BridgeError::WrongResourceKind
                }),
            },
    {
        let cfg = match self.get_options(token) {
            Ok(c) => c,
            Err(e) => return Err(e),
        };
        let mut c = cfg;
        c.read = read;
        self.table.slots.set(token, Some(Resource::FileOptions(c)));
        Ok(())
    }

    /// Sets whether the file is opened for incremental writing.
    pub fn options_write(&mut self, token: usize, write: bool) -> (r: Result<(), BridgeError>)
        requires
            old(self).wf(),
        ensures
            final(self).wf(),
            final(self).repos == old(self).repos,
            match r {
                Ok(_) => slot_of(old(self).table.slots@, token) matches Some(
                    Resource::FileOptions(cfg),
                ) && final(self).table.slots@ == old(self).table.slots@.update(
                    token as int,
                    Some(Resource::FileOptions(OptionsCfg { write, ..cfg })),
                ),
                Err(e) => *final(self) == *old(self) && !(slot_of(
                    old(self).table.slots@,
                    token,
                ) matches Some(Resource::FileOptions(_))) && e == (if slot_of(
                    old(self).table.slots@,
                    token,
                ) is None {
                    BridgeError::NoResourceAttached
                } else {
                    BridgeError::WrongResourceKind
                }),
            },
    {
        let cfg = match self.get_options(token) {
            Ok(c) => c,
            Err(e) => return Err(e),
        };
        let mut c = cfg;
        c.write = write;
        self.table.slots.set(token, Some(Resource::FileOptions(c)));
        Ok(())
    }

    /// Sets whether writing starts at the end of the content.
    pub fn options_append(&mut self, token: usize, append: bool) -> (r: Result<(), BridgeError>)
        requires
            old(self).wf(),
        ensures
            final(self).wf(),
            final(self).repos == old(self).repos,
            match r {
                Ok(_) => slot_of(old(self).table.slots@, token) matches Some(
                    Resource::FileOptions(cfg),
                ) && final(self).table.slots@ == old(self).table.slots@.update(
                    token as int,
                    Some(Resource::FileOptions(OptionsCfg { append, ..cfg })),
                ),
                Err(e) => *final(self) == *old(self) && !(slot_of(
                    old(self).table.slots@,
                    token,
                ) matches Some(Resource::FileOptions(_))) && e == (if slot_of(
                    old(self).table.slots@,
                    token,
                ) is None {
                    BridgeError::NoResourceAttached
                } else {
                    BridgeError::WrongResourceKind
                }),
            },
    {
        let cfg = match self.get_options(token) {
            Ok(c) => c,
            Err(e) => return Err(e),
        };
        let mut c = cfg;
        c.append = append;
        self.table.slots.set(token, Some(Resource::FileOptions(c)));
        Ok(())
    }

    /// Sets whether the content is cleared when the file opens.
    pub fn options_truncate(&mut self, token: usize, truncate: bool) -> (r: Result<(), BridgeError>)
        requires
            old(self).wf(),
        ensures
            final(self).wf(),
            final(self).repos == old(self).repos,
            match r {
                Ok(_) => slot_of(old(self).table.slots@, token) matches Some(
                    Resource::FileOptions(cfg),
                ) && final(self).table.slots@ == old(self).table.slots@.update(
                    token as int,
                    Some(Resource::FileOptions(OptionsCfg { truncate, ..cfg })),
                ),
                Err(e) => *final(self) == *old(self) && !(slot_of(
                    old(self).table.slots@,
                    token,
                ) matches Some(Resource::FileOptions(_))) && e == (if slot_of(
                    old(self).table.slots@,
                    token,
                ) is None {
                    BridgeError::NoResourceAttached
                } else {
                    BridgeError::WrongResourceKind
                }),
            },
    {
        let cfg = match self.get_options(token) {
            Ok(c) => c,
            Err(e) => return Err(e),
        };
        let mut c = cfg;
        c.truncate = truncate;
        self.table.slots.set(token, Some(Resource::FileOptions(c)));
        Ok(())
    }

    /// Sets whether a missing file may be created.
    pub fn options_create(&mut self, token: usize, create: bool) -> (r: Result<(), BridgeError>)
        requires
            old(self).wf(),
        ensures
            final(self).wf(),
            final(self).repos == old(self).repos,
            match r {
                Ok(_) => slot_of(old(self).table.slots@, token) matches Some(
                    Resource::FileOptions(cfg),
                ) && final(self).table.slots@ == old(self).table.slots@.update(
                    token as int,
                    Some(Resource::FileOptions(OptionsCfg { create, ..cfg })),
                ),
                Err(e) => *final(self) == *old(self) && !(slot_of(
                    old(self).table.slots@,
                    token,
                ) matches Some(Resource::FileOptions(_))) && e == (if slot_of(
                    old(self).table.slots@,
                    token,
                ) is None {
                    BridgeError::NoResourceAttached
                } else {
                    BridgeError::WrongResourceKind
                }),
            },
    {
        let cfg = match self.get_options(token) {
            Ok(c) => c,
            Err(e) => return Err(e),
        };
        let mut c = cfg;
        c.create = create;
        self.table.slots.set(token, Some(Resource::FileOptions(c)));
        Ok(())
    }

    /// Sets whether the file must be created fresh, failing where it
    /// already exists.
    pub fn options_create_new(&mut self, token: usize, create_new: bool) -> (r: Result<(), BridgeError>)
        requires
            old(self).wf(),
        ensures
            final(self).wf(),
            final(self).repos == old(self).repos,
            match r {
                Ok(_) => slot_of(old(self).table.slots@, token) matches Some(
                    Resource::FileOptions(cfg),
                ) && final(self).table.slots@ == old(self).table.slots@.update(
                    token as int,
                    Some(Resource::FileOptions(OptionsCfg { create_new, ..cfg })),
                ),
                Err(e) => *final(self) == *old(self) && !(slot_of(
                    old(self).table.slots@,
                    token,
                ) matches Some(Resource::FileOptions(_))) && e == (if slot_of(
                    old(self).table.slots@,
                    token,
                ) is None {
                    BridgeError::NoResourceAttached
                } else {
                    BridgeError::WrongResourceKind
                }),
            },
    {
        let cfg = match self.get_options(token) {
            Ok(c) => c,
            Err(e) => return Err(e),
        };
        let mut c = cfg;
        c.create_new = create_new;
        self.table.slots.set(token, Some(Resource::FileOptions(c)));
        Ok(())
    }

    /// Sets whether the file deduplicates content chunks.
    pub fn options_dedup_chunk(&mut self, token: usize, dedup: bool) -> (r: Result<(), BridgeError>)
        requires
            old(self).wf(),
        ensures
            final(self).wf(),
            final(self).repos == old(self).repos,
            match r {
                Ok(_) => slot_of(old(self).table.slots@, token) matches Some(
                    Resource::FileOptions(cfg),
                ) && final(self).table.slots@ == old(self).table.slots@.update(
                    token as int,
                    Some(Resource::FileOptions(OptionsCfg { dedup_chunk: dedup, ..cfg })),
                ),
                Err(e) => *final(self) == *old(self) && !(slot_of(
                    old(self).table.slots@,
                    token,
                ) matches Some(Resource::FileOptions(_))) && e == (if slot_of(
                    old(self).table.slots@,
                    token,
                ) is None {
                    BridgeError::NoResourceAttached
                } else {
                    BridgeError::WrongResourceKind
                }),
            },
    {
        let cfg = match self.get_options(token) {
            Ok(c) => c,
            Err(e) => return Err(e),
        };
        let mut c = cfg;
        c.dedup_chunk = dedup;
        self.table.slots.set(token, Some(Resource::FileOptions(c)));
        Ok(())
    }

    /// Sets the version-retention limit.  Values in `1..=255` pass
    /// through; everything else is silently coerced to `0`, which the
    /// store reads as "no explicit limit".
    pub fn opener_version_limit(&mut self, token: usize, limit: i32) -> (r: Result<(), BridgeError>)
        requires
            old(self).wf(),
        ensures
            final(self).wf(),
            final(self).repos == old(self).repos,
            match r {
                Ok(_) => slot_of(old(self).table.slots@, token) matches Some(
                    Resource::Opener(cfg),
                ) && final(self).table.slots@ == old(self).table.slots@.update(
                    token as int,
                    Some(Resource::Opener(OpenerCfg { version_limit: (if 1 <= limit <= 255 { limit as u8 } else { 0u8 }), ..cfg })),
                ),
                Err(e) => *final(self) == *old(self) && !(slot_of(
                    old(self).table.slots@,
                    token,
                ) matches Some(Resource::Opener(_))) && e == (if slot_of(
                    old(self).table.slots@,
                    token,
                ) is None {
                    BridgeError::NoResourceAttached
                } else {
                    BridgeError::WrongResourceKind
                }),
            },
    {
        let cfg = match self.get_opener(token) {
            Ok(c) => c,
            Err(e) => return Err(e),
        };
        let mut c = cfg;
        c.version_limit = crate::check_version_limit(limit) as u8;
        self.table.slots.set(token, Some(Resource::Opener(c)));
        Ok(())
    }

    /// Sets the version-retention limit.  Values in `1..=255` pass
    /// through; everything else is silently coerced to `0`, which the
    /// store reads as "no explicit limit".
    pub fn options_version_limit(&mut self, token: usize, limit: i32) -> (r: Result<(), BridgeError>)
        requires
            old(self).wf(),
        ensures
            final(self).wf(),
            final(self).repos == old(self).repos,
            match r {
                Ok(_) => slot_of(old(self).table.slots@, token) matches Some(
                    Resource::FileOptions(cfg),
                ) && final(self).table.slots@ == old(self).table.slots@.update(
                    token as int,
                    Some(Resource::FileOptions(OptionsCfg { version_limit: (if 1 <= limit <= 255 { limit as u8 } else { 0u8 }), ..cfg })),
                ),
                Err(e) => *final(self) == *old(self) && !(slot_of(
                    old(self).table.slots@,
                    token,
                ) matches Some(Resource::FileOptions(_))) && e == (if slot_of(
                    old(self).table.slots@,
                    token,
                ) is None {
                    BridgeError::NoResourceAttached
                } else {
                    BridgeError::WrongResourceKind
                }),
            },
    {
        let cfg = match self.get_options(token) {
            Ok(c) => c,
            Err(e) => return Err(e),
        };
        let mut c = cfg;
        c.version_limit = crate::check_version_limit(limit) as u8;
        self.table.slots.set(token, Some(Resource::FileOptions(c)));
        Ok(())
    }

}

} // verus!
