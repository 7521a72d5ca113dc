//! The record of an installation left on the installed system: the final
//! state, with the passphrase taken out, and the partition definitions used.
use crate::install::{EncryptState, FinalInstallationState};
use crate::repartcfg::RepartConfig;
use crate::systemd_ini::{
    ins_pos, lemma_ins_pos, lemma_ins_pos_exact, lemma_sorted_insert, lemma_sorted_present, name_lt,
    name_lt_exec, sorted_names,
};
use crate::text::{chars_of, chars_eq, owned};
use vstd::prelude::*;

verus! {

/// What stands in the record in place of the passphrase.
pub open spec fn redacted() -> Seq<char> {
    "REDACTED"@
}

/// The redacted state keeps everything but the passphrase.
pub open spec fn redacted_of(s: FinalInstallationState, state: FinalInstallationState) -> bool {
    &&& s.langlocale == state.langlocale
    &&& s.destination_disk == state.destination_disk
    &&& s.installation_type == state.installation_type
    &&& s.config == state.config
    &&& s.copy_mode == state.copy_mode
    &&& (s.encrypts is Some <==> state.encrypts is Some)
    &&& s.encrypts is Some ==> s.encrypts->0.tpm == state.encrypts->0.tpm && s.encrypts->0.encryption_key@
        == redacted()
}

fn redact(state: FinalInstallationState) -> (r: FinalInstallationState)
    ensures
        redacted_of(r, state),
{
    let mut state = state;
    let encrypts = match state.encrypts {
        Some(e) => Some(EncryptState { tpm: e.tpm, encryption_key: owned("REDACTED") }),
        None => None,
    };
    state.encrypts = encrypts;
    state
}

/// The state with the passphrase taken out; everything else is kept.
pub fn prep_state_for_export(state: FinalInstallationState) -> (r: Result<FinalInstallationState, String>)
    ensures
        r matches Ok(s) && redacted_of(s, state),
{
    Ok(redact(state))
}

/// The version of the record's format.
pub open spec fn result_dump_format_version() -> Seq<char> {
    "0.1.0"@
}

/// The partition definitions an installation used, by file name, in order
/// of name.
pub struct SystemdRepartData {
    configs: Vec<(String, RepartConfig)>,
}

/// Where a definition of that name stands.
pub open spec fn config_index(c: Seq<(String, RepartConfig)>, name: Seq<char>) -> int {
    choose|i: int| 0 <= i < c.len() && c[i].0@ == name
}

/// The names of the definitions, in order.
pub open spec fn config_names(c: Seq<(String, RepartConfig)>) -> Seq<Seq<char>> {
    c.map_values(|p: (String, RepartConfig)| p.0@)
}

impl SystemdRepartData {
    /// Names are sorted, each once.
    pub closed spec fn wf(&self) -> bool {
        sorted_names(config_names(self.configs@))
    }

    /// The names of the definitions, in order.
    pub closed spec fn names(&self) -> Seq<Seq<char>> {
        config_names(self.configs@)
    }

    /// The definition read from the file `name`, if any.
    pub closed spec fn get(&self, name: Seq<char>) -> Option<RepartConfig> {
        if exists|i: int| 0 <= i < self.configs@.len() && self.configs@[i].0@ == name {
            Some(self.configs@[config_index(self.configs@, name)].1)
        } else {
            None
        }
    }

    proof fn lemma_get_at(&self, p: int)
        requires
            self.wf(),
            0 <= p < self.configs@.len(),
        ensures
            self.get(self.configs@[p].0@) == Some(self.configs@[p].1),
    {
        let name = self.configs@[p].0@;
        let keys = config_names(self.configs@);
        assert(keys[p] == name);
        assert(self.configs@[p].0@ == name);
        let i = config_index(self.configs@, name);
        assert(keys[i] == name);
        if i != p {
            crate::systemd_ini::lemma_name_lt_irreflexive(name);
            if i < p {
                assert(name_lt(keys[i], keys[p]));
            } else {
                assert(name_lt(keys[p], keys[i]));
            }
        }
    }

    /// No definitions.
    pub fn new() -> (r: Self)
        ensures
            r.wf(),
            r.names().len() == 0,
    {
        let r = SystemdRepartData { configs: Vec::new() };
        proof {
            assert(r.names() =~= Seq::<Seq<char>>::empty());
        }
        r
    }

    fn position(&self, name: &[char]) -> (r: usize)
        ensures
            r == ins_pos(self.names(), name@),
    {
        let ghost keys = self.names();
        let mut i: usize = 0;
        while i < self.configs.len()
            invariant
                i <= self.configs@.len(),
                keys == self.names(),
                keys.len() == self.configs@.len(),
                forall|j: int| 0 <= j < i ==> name_lt(#[trigger] keys[j], name@),
            decreases self.configs@.len() - i,
        {
            let k = chars_of(self.configs[i].0.as_str());
            proof {
                assert(keys[i as int] == self.configs@[i as int].0@);
            }
            if !name_lt_exec(&k, name) {
                proof {
                    lemma_ins_pos_exact(keys, name@, i as int);
                }
                return i;
            }
            i = i + 1;
        }
        proof {
            lemma_ins_pos_exact(keys, name@, i as int);
        }
        i
    }

    /// Adds the definition read from the file `name`; a definition already
    /// there under that name is replaced.
    pub fn insert(&mut self, name: String, config: RepartConfig)
        requires
            old(self).wf(),
        ensures
            final(self).wf(),
            final(self).names() == if old(self).names().contains(name@) {
                old(self).names()
            } else {
                old(self).names().insert(ins_pos(old(self).names(), name@) as int, name@)
            },
            final(self).get(name@) == Some(config),
    {
        let n = chars_of(name.as_str());
        let p = self.position(&n);
        let ghost keys = self.names();
        proof {
            lemma_ins_pos(keys, name@);
        }
        if p < self.configs.len() && chars_eq(&chars_of(self.configs[p].0.as_str()), &n) {
            proof {
                assert(keys[p as int] == name@);
                assert(keys.contains(name@));
            }
            self.configs.set(p, (name, config));
            proof {
                assert(self.names() =~= keys);
                assert(self.configs@[p as int].0@ == n@);
                self.lemma_get_at(p as int);
            }
        } else {
            proof {
                if keys.contains(name@) {
                    let j = choose|j: int| 0 <= j < keys.len() && keys[j] == name@;
                    lemma_sorted_present(keys, name@, j);
                    assert(false);
                }
                lemma_sorted_insert(keys, name@);
            }
            self.configs.insert(p, (name, config));
            proof {
                assert(self.names() =~= keys.insert(p as int, n@));
                assert(self.configs@[p as int].0@ == n@);
                self.lemma_get_at(p as int);
            }
        }
    }

    /// The definitions, each with its file name: `read` holds the regular
    /// files of the directory with their definitions, in the order read.
    pub fn get_configs(read: Vec<(String, RepartConfig)>) -> (r: Self)
        ensures
            r.wf(),
            r.names().to_set() == config_names(read@).to_set(),
    {
        let mut data = Self::new();
        let mut rest = read;
        let ghost all = config_names(rest@);
        let ghost mut k: int = 0;
        proof {
            assert(all.take(0).to_set() =~= Set::<Seq<char>>::empty());
            assert(data.names().to_set() =~= Set::<Seq<char>>::empty());
            assert(config_names(rest@) =~= all.skip(0));
        }
        while rest.len() > 0
            invariant
                data.wf(),
                0 <= k <= all.len(),
                config_names(rest@) == all.skip(k),
                data.names().to_set() == all.take(k).to_set(),
            decreases rest@.len(),
        {
            let ghost before = data.names();
            let ghost rest0 = rest@;
            let (name, config) = rest.remove(0);
            let ghost nm = name@;
            proof {
                assert(config_names(rest0).len() == rest0.len());
                assert(rest0.len() > 0);
                assert(all.skip(k).len() > 0);
                assert(config_names(rest0)[0] == nm);
                assert(all.skip(k)[0] == nm);
                assert(k < all.len());
                assert(all.skip(k)[0] == all[k]);
                assert(all[k] == nm);
                assert(rest@ =~= rest0.subrange(1, rest0.len() as int));
                assert(config_names(rest@) =~= config_names(rest0).subrange(1, rest0.len() as int));
                assert(config_names(rest@) =~= all.skip(k + 1));
                assert(all.take(k + 1) =~= all.take(k).push(nm));
            }
            data.insert(name, config);
            proof {
                let after = data.names();
                assert(after.to_set() =~= before.to_set().insert(nm)) by {
                    assert forall|y: Seq<char>| after.to_set().contains(y) <==> before.to_set().insert(nm).contains(y) by {
                        if !before.contains(nm) {
                            let p = ins_pos(before, nm) as int;
                            lemma_ins_pos(before, nm);
                            if after.contains(y) {
                                let j = choose|j: int| 0 <= j < after.len() && after[j] == y;
                                if j < p {
                                    assert(before[j] == y);
                                } else if j > p {
                                    assert(before[j - 1] == y);
                                }
                            }
                            if before.contains(y) {
                                let j = choose|j: int| 0 <= j < before.len() && before[j] == y;
                                if j < p {
                                    assert(after[j] == y);
                                } else {
                                    assert(after[j + 1] == y);
                                }
                            }
                            if y == nm {
                                assert(after[p] == y);
                            }
                        }
                    }
                }
                let t1 = all.take(k + 1);
                let t0 = all.take(k);
                assert(t1.to_set() =~= t0.to_set().insert(nm)) by {
                    assert forall|y: Seq<char>| t1.to_set().contains(y) <==> t0.to_set().insert(nm).contains(y) by {
                        if t1.contains(y) {
                            let j = choose|j: int| 0 <= j < t1.len() && t1[j] == y;
                            if j < k {
                                assert(t0[j] == y);
                            }
                        }
                        if t0.contains(y) {
                            let j = choose|j: int| 0 <= j < t0.len() && t0[j] == y;
                            assert(t1[j] == y);
                        }
                        if y == nm {
                            assert(t1[k] == y);
                        }
                    }
                }
                k = k + 1;
            }
        }
        proof {
            assert(all.skip(k).len() == 0);
            assert(all.take(k) =~= all);
        }
        data
    }
}

/// The record written to the installed system.
pub struct ReadymadeResult {
    pub version: String,
    pub readymade_version: String,
    pub is_debug_build: bool,
    pub state: FinalInstallationState,
    pub systemd_repart_data: Option<SystemdRepartData>,
}

impl ReadymadeResult {
    /// The record of `state`, its passphrase taken out; `readymade_version` is
    /// the installer's version.
    pub fn new(
        state: FinalInstallationState,
        systemd_repart_data: Option<SystemdRepartData>,
        readymade_version: &str,
        is_debug_build: bool,
    ) -> (r: Self)
        ensures
            r.version@ == result_dump_format_version(),
            r.readymade_version@ == readymade_version@,
            r.is_debug_build == is_debug_build,
            redacted_of(r.state, state),
            r.systemd_repart_data == systemd_repart_data,
    {
        let prepared = redact(state);
        ReadymadeResult {
            version: owned("0.1.0"),
            readymade_version: owned(readymade_version),
            is_debug_build,
            state: prepared,
            systemd_repart_data,
        }
    }
}

} // verus!
