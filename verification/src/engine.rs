//! The coalescing engine: the synchronous heart of the debounce loop.
//!
//! The surrounding binary owns the clock, the observation channel and the
//! timer race; everything it decides per iteration is decided here, over
//! plain millisecond timestamps.

use vstd::prelude::*;

use crate::applier::space_split;
use crate::applier::split_spaces;
use crate::config::Config;
use crate::config::resolve_model;
use crate::observation::OutputInfo;
use crate::observation::tag_of;
use crate::pending::DEBOUNCE_MS;
use crate::pending::PendingTable;
use crate::pending::PendingUpdate;

verus! {

/// The engine: the configuration and the per-output pending-update table.
pub struct SwwwBackend {
    pub config: Config,
    pub pending: PendingTable,
}

/// The argument list handed to the wallpaper setter for one due update.
pub open spec fn apply_args_model(c: Config, output: Seq<char>, path: Seq<char>) -> Seq<Seq<char>> {
    seq!["img"@, "-o"@, output] + space_split(c.swww_args@) + seq![path]
}

impl SwwwBackend {
    /// The engine invariant: the table is well-formed.
    pub open spec fn wf(&self) -> bool {
        self.pending.wf()
    }

    /// A fresh engine around a loaded configuration, with nothing pending.
    pub fn new(config: Config) -> (r: SwwwBackend)
        ensures
            r.wf(),
            r.pending@.len() == 0,
            r.config == config,
    {
        SwwwBackend { config, pending: PendingTable::new() }
    }

    /// Fold one observation into the pending table: resolve the desired
    /// wallpaper, then upsert it under the observation's output name.
    pub fn handle_observation(&mut self, obs: &OutputInfo, now: u64)
        requires
            old(self).wf(),
            now + DEBOUNCE_MS <= u64::MAX,
        ensures
            final(self).wf(),
            final(self).config == old(self).config,
            final(self).pending@ == crate::pending::upsert_model(
                old(self).pending@,
                obs.name@,
                resolve_model(old(self).config, tag_of(obs.focused_tags) as u64),
                now,
            ),
    {
        let t = obs.tag();
        proof {
            crate::observation::lemma_log2_floor_nonneg(obs.focused_tags);
            if obs.focused_tags >= 1 {
                crate::observation::lemma_log2_floor_lt(obs.focused_tags);
            }
            assert(t == tag_of(obs.focused_tags) as u64);
        }
        let path = self.config.resolve(t);
        self.pending.upsert(&obs.name, path, now);
    }

    /// One iteration of the loop's synchronous work: flush every due entry
    /// first, then fold the buffered observation, if any, into the table.
    /// Flushing before folding is what keeps a due update from being
    /// delayed by unrelated incoming traffic.
    pub fn step(&mut self, now: u64, obs: Option<&OutputInfo>) -> (r: Vec<PendingUpdate>)
        requires
            old(self).wf(),
            now + DEBOUNCE_MS <= u64::MAX,
        ensures
            final(self).wf(),
            final(self).config == old(self).config,
            r@.map_values(|e: PendingUpdate| e@) == crate::pending::due_of(
                old(self).pending@,
                now,
            ),
            final(self).pending@ == (match obs {
                Option::None => crate::pending::not_due_of(old(self).pending@, now),
                Option::Some(o) => crate::pending::upsert_model(
                    crate::pending::not_due_of(old(self).pending@, now),
                    o.name@,
                    resolve_model(old(self).config, tag_of(o.focused_tags) as u64),
                    now,
                ),
            }),
    {
        let due = self.pending.take_due(now);
        if let Some(o) = obs {
            self.handle_observation(o, now);
        }
        due
    }

    /// The least remaining wait over all pending entries, or `None` when
    /// the table is empty; `Some(0)` means an entry is already due. The
    /// caller arms its timer with this, so an idle engine never polls.
    pub fn earliest_wait(&self, now: u64) -> (r: Option<u64>)
        requires
            self.wf(),
        ensures
            r is None <==> self.pending@.len() == 0,
            self.pending@.len() > 0 ==> r == Some(
                crate::pending::min_wait(self.pending@, now) as u64,
            ),
    {
        self.pending.earliest_wait(now)
    }

    /// The argv for the external wallpaper setter: the fixed subcommand,
    /// the output name, the configured extra arguments split on spaces,
    /// and the path last.
    pub fn apply_args(&self, output: &String, path: &String) -> (r: Vec<String>)
        ensures
            r@.map_values(|p: String| p@) == apply_args_model(self.config, output@, path@),
    {
        let mut r: Vec<String> = Vec::new();
        r.push("img".to_owned());
        r.push("-o".to_owned());
        r.push(output.clone());
        let mut extra = split_spaces(self.config.swww_args.as_str());
        let ghost head = r@;
        let ghost extra0 = extra@;
        r.append(&mut extra);
        r.push(path.clone());
        proof {
            assert(r@ =~= head + extra0 + seq![*path]);
            assert(r@.map_values(|p: String| p@) =~~= apply_args_model(
                self.config,
                output@,
                path@,
            ));
        }
        r
    }
}

} // verus!
