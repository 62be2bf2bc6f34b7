//! The archive writer's state machine: when a new archive is opened, what it
//! and its entries are called, and what each archive ends up holding.
//!
//! The machine decides; the process around it performs the file work the
//! decisions ask for. The ghost history records, per sealed archive, the
//! offsets of the entries written into it, oldest first.

use crate::helpers::{all_digits, char_run, dec_str, digit_val, digits_val, fill_len, pow10,
    replaced};
use crate::helpers::{
    append, lemma_dec_str_digits, lemma_dec_str_len, lemma_dec_str_value, lemma_digits_val_first,
    lemma_digits_val_upper, lemma_digits_val_zeros, lpad_0, replace, u64_to_string,
};
use crate::ingest::{lemma_lex_total, lex_leq};
use crate::models::Compression;
use vstd::prelude::*;

verus! {

/// A number in decimal, left-padded with zeroes to width nine, as archive
/// and entry names embed it.
pub open spec fn padded_offset(off: nat) -> Seq<char> {
    char_run('0', fill_len(dec_str(off).len() as int, 9)) + dec_str(off)
}

/// The file name of the archive that opens at `off`: the pattern with its
/// `{}` slot filled by the padded offset.
pub open spec fn archive_name_spec(pattern: Seq<char>, off: nat) -> Seq<char> {
    replaced(pattern, "{}"@, padded_offset(off))
}

/// The name of the entry holding the documents of the step at `off`.
pub open spec fn entry_name_spec(off: nat) -> Seq<char> {
    "docs_at_"@ + padded_offset(off) + ".json"@
}

/// The sum of the entry counts of a run of sealed archives.
pub open spec fn sum_lens(ss: Seq<Seq<u64>>) -> int
    decreases ss.len(),
{
    if ss.len() == 0 {
        0
    } else {
        sum_lens(ss.drop_last()) + ss.last().len()
    }
}

/// Offsets strictly increasing left to right.
pub open spec fn strictly_inc(s: Seq<u64>) -> bool {
    forall|i: int, j: int| 0 <= i < j < s.len() ==> s[i] < s[j]
}

/// The writer's archive state.
pub struct Archiver {
    pub folder: String,
    pub file_pattern: String,
    pub compression: Compression,
    pub max_files: u64,
    pub file_count: u64,
    pub open_offset: Option<u64>,
    pub sealed: Ghost<Seq<Seq<u64>>>,
    pub current: Ghost<Seq<u64>>,
}

/// What one write asks of the file layer: seal the open archive and create
/// the named one first, when asked; then store the entry under its name.
pub struct WritePlan {
    pub create: Option<String>,
    pub entry_name: String,
}

impl Archiver {
    /// The state is consistent: the open archive holds what the count says,
    /// no archive outgrows the configured maximum, every archive's name
    /// embeds its first entry's offset, and offsets only grow.
    pub open spec fn wf(self) -> bool {
        &&& self.max_files >= 1
        &&& self.file_count == self.current@.len()
        &&& self.current@.len() <= self.max_files
        &&& (self.open_offset is Some <==> self.current@.len() >= 1)
        &&& (self.current@.len() >= 1 ==> self.open_offset->0 == self.current@[0])
        &&& strictly_inc(self.current@)
        &&& forall|k: int|
            0 <= k < self.sealed@.len() ==> 1 <= (#[trigger] self.sealed@[k]).len()
                <= self.max_files && strictly_inc(self.sealed@[k])
    }

    /// How many entries the run has written: the sealed archives' entries
    /// and the open archive's.
    pub open spec fn entries_total(self) -> int {
        sum_lens(self.sealed@) + self.current@.len()
    }

    /// A write rotates when no archive is open or the open one is full.
    pub open spec fn write_rotates(self) -> bool {
        self.open_offset is None || self.file_count >= self.max_files
    }

    /// A fresh writer: nothing open, nothing written.
    pub fn write_on(
        output_dir: &str,
        output_pattern: &str,
        compression: Compression,
        max: u64,
    ) -> (r: Archiver)
        requires
            max >= 1,
        ensures
            r.wf(),
            r.folder@ == output_dir@,
            r.file_pattern@ == output_pattern@,
            r.compression == compression,
            r.max_files == max,
            r.open_offset is None,
            r.sealed@ == Seq::<Seq<u64>>::empty(),
            r.current@ == Seq::<u64>::empty(),
    {
        Archiver {
            folder: output_dir.to_owned(),
            file_pattern: output_pattern.to_string(),
            compression,
            max_files: max,
            file_count: 0,
            open_offset: None,
            sealed: Ghost(Seq::empty()),
            current: Ghost(Seq::empty()),
        }
    }

    /// Accepts the documents of the step at `offset` and says what the file
    /// layer must do: open a fresh archive first when rotating, then store
    /// the entry. Exactly one entry is accounted per call, so the entries
    /// across all archives always sum to the number of accepted writes.
    #[verifier::rlimit(80)]
    pub fn write_documents(&mut self, offset: u64) -> (r: WritePlan)
        requires
            old(self).wf(),
            old(self).current@.len() >= 1 ==> offset > old(self).current@.last(),
        ensures
            final(self).wf(),
            final(self).entries_total() == old(self).entries_total() + 1,
            final(self).max_files == old(self).max_files,
            final(self).file_pattern == old(self).file_pattern,
            final(self).folder == old(self).folder,
            final(self).compression == old(self).compression,
            final(self).current@.len() >= 1 && final(self).current@.last() == offset,
            r.entry_name@ == entry_name_spec(offset as nat),
            old(self).write_rotates() ==> {
                &&& r.create is Some
                &&& r.create->0@ == archive_name_spec(old(self).file_pattern@, offset as nat)
                &&& final(self).open_offset == Some(offset)
                &&& final(self).current@ == seq![offset]
                &&& final(self).sealed@ == (if old(self).current@.len() >= 1 {
                    old(self).sealed@.push(old(self).current@)
                } else {
                    old(self).sealed@
                })
            },
            !old(self).write_rotates() ==> {
                &&& r.create is None
                &&& final(self).open_offset == old(self).open_offset
                &&& final(self).current@ == old(self).current@.push(offset)
                &&& final(self).sealed@ == old(self).sealed@
            },
    {
        let suffix = lpad_0(u64_to_string(offset).as_str(), 9);
        let head = append("docs_at_", suffix.as_str());
        let entry_name = append(head.as_str(), ".json");
        proof {
            assert(entry_name@ =~= entry_name_spec(offset as nat));
        }
        let rotate = match self.open_offset {
            None => true,
            Some(_) => self.file_count >= self.max_files,
        };
        if rotate {
            let name = replace(self.file_pattern.as_str(), "{}", suffix.as_str());
            proof {
                if self.current@.len() >= 1 {
                    assert(sum_lens(self.sealed@.push(self.current@)) == sum_lens(self.sealed@)
                        + self.current@.len()) by {
                        assert(self.sealed@.push(self.current@).drop_last() =~= self.sealed@);
                    }
                }
            }
            if self.file_count > 0 {
                proof {
                    self.sealed@ = self.sealed@.push(self.current@);
                }
            }
            proof {
                self.current@ = seq![offset];
            }
            self.open_offset = Some(offset);
            self.file_count = 1;
            proof {
                let osealed = old(self).sealed@;
                let ocur = old(self).current@;
                assert forall|k: int|
                    0 <= k < self.sealed@.len() implies 1 <= (#[trigger] self.sealed@[k]).len()
                    <= self.max_files && strictly_inc(self.sealed@[k]) by {
                    if k < osealed.len() {
                        assert(self.sealed@[k] == osealed[k]);
                    } else {
                        assert(self.sealed@[k] == ocur);
                    }
                }
            }
            WritePlan { create: Some(name), entry_name }
        } else {
            proof {
                self.current@ = self.current@.push(offset);
            }
            self.file_count = self.file_count + 1;
            proof {
                let ocur = old(self).current@;
                assert forall|i: int, j: int|
                    0 <= i < j < self.current@.len() implies self.current@[i]
                    < self.current@[j] by {
                    if j + 1 < self.current@.len() {
                        assert(ocur[i] < ocur[j]);
                    } else {
                        assert(self.current@[j] == offset);
                        if i + 1 < self.current@.len() - 1 {
                            assert(ocur[i] < ocur[ocur.len() - 1]);
                        }
                    }
                }
            }
            WritePlan { create: None, entry_name }
        }
    }

    /// Seals the open archive, if any; sealing is idempotent.
    #[verifier::rlimit(80)]
    pub fn close_archive(&mut self)
        requires
            old(self).wf(),
        ensures
            final(self).wf(),
            final(self).open_offset is None,
            final(self).current@ == Seq::<u64>::empty(),
            final(self).entries_total() == old(self).entries_total(),
            final(self).max_files == old(self).max_files,
            final(self).file_pattern == old(self).file_pattern,
            final(self).sealed@ == (if old(self).current@.len() >= 1 {
                old(self).sealed@.push(old(self).current@)
            } else {
                old(self).sealed@
            }),
    {
        if self.file_count > 0 {
            proof {
                assert(sum_lens(self.sealed@.push(self.current@)) == sum_lens(self.sealed@)
                    + self.current@.len()) by {
                    assert(self.sealed@.push(self.current@).drop_last() =~= self.sealed@);
                }
                self.sealed@ = self.sealed@.push(self.current@);
                self.current@ = Seq::empty();
            }
        }
        self.open_offset = None;
        self.file_count = 0;
        proof {
            let osealed = old(self).sealed@;
            let ocur = old(self).current@;
            assert(self.current@ =~= Seq::<u64>::empty());
            assert forall|k: int|
                0 <= k < self.sealed@.len() implies 1 <= (#[trigger] self.sealed@[k]).len()
                <= self.max_files && strictly_inc(self.sealed@[k]) by {
                if k < osealed.len() {
                    assert(self.sealed@[k] == osealed[k]);
                } else {
                    assert(self.sealed@[k] == ocur);
                }
            }
        }
    }
}

/// No archive a consistent writer produced holds more entries than the
/// configured maximum.
pub proof fn archives_respect_capacity(a: Archiver)
    requires
        a.wf(),
    ensures
        forall|k: int| 0 <= k < a.sealed@.len() ==> (#[trigger] a.sealed@[k]).len() <= a.max_files,
        a.current@.len() <= a.max_files,
{
}

/// The offset in an archive's name is the smallest offset of its entries,
/// for the open archive and every sealed one.
pub proof fn archive_names_embed_min(a: Archiver)
    requires
        a.wf(),
    ensures
        a.current@.len() >= 1 ==> a.open_offset->0 == a.current@[0] && forall|i: int|
            0 <= i < a.current@.len() ==> a.current@[0] <= #[trigger] a.current@[i],
        forall|k: int, i: int|
            0 <= k < a.sealed@.len() && 0 <= i < a.sealed@[k].len() ==> (#[trigger] a.sealed@[k])[0]
                <= #[trigger] a.sealed@[k][i],
{
    assert forall|k: int, i: int|
        0 <= k < a.sealed@.len() && 0 <= i < a.sealed@[k].len() implies (#[trigger] a.sealed@[k])[0]
        <= #[trigger] a.sealed@[k][i] by {
        if i > 0 {
            assert(a.sealed@[k][0] < a.sealed@[k][i]);
        }
    }
}

/// With a maximum of one entry per archive, every write opens a fresh
/// archive: one file per entry.
pub proof fn single_entry_archives(a: Archiver)
    requires
        a.wf(),
        a.max_files == 1,
    ensures
        a.write_rotates(),
{
}

/// On digit strings of one length, lexicographic order is numeric order.
proof fn lemma_digit_lex_value(x: Seq<char>, y: Seq<char>)
    requires
        x.len() == y.len(),
        all_digits(x),
        all_digits(y),
        lex_leq(x, y),
        x != y,
    ensures
        digits_val(x) < digits_val(y),
    decreases x.len(),
{
    if x.len() == 0 {
        assert(x =~= y);
    }
    let x0 = x[0];
    let y0 = y[0];
    assert(all_digits(x.skip(1)) && all_digits(y.skip(1))) by {
        assert(forall|i: int| 0 <= i < x.skip(1).len() ==> #[trigger] x.skip(1)[i] == x[i + 1]);
        assert(forall|i: int| 0 <= i < y.skip(1).len() ==> #[trigger] y.skip(1)[i] == y[i + 1]);
    }
    lemma_digits_val_first(x);
    lemma_digits_val_first(y);
    let p = pow10((x.len() - 1) as nat);
    if (x0 as u32) < (y0 as u32) {
        assert(digit_val(x0) < digit_val(y0));
        lemma_digits_val_upper(x.skip(1));
        assert(digits_val(x.skip(1)) < p) by {
            lemma_pow10_pos((x.len() - 1) as nat);
        }
        assert((digit_val(x0) as int + 1) * p <= digit_val(y0) as int * p) by {
            vstd::arithmetic::mul::lemma_mul_inequality(
                digit_val(x0) as int + 1,
                digit_val(y0) as int,
                p as int,
            );
        }
        assert((digit_val(x0) as int + 1) * p == digit_val(x0) as int * p + p) by {
            vstd::arithmetic::mul::lemma_mul_is_distributive_add_other_way(
                p as int,
                digit_val(x0) as int,
                1,
            );
        }
    } else {
        assert((x0 as u32) == (y0 as u32));
        assert(x0 == y0) by {
            vstd::utf8::char_u32_cast(x0, x0 as u32);
            vstd::utf8::char_u32_cast(y0, y0 as u32);
        }
        if x.skip(1) == y.skip(1) {
            assert forall|i: int| 0 <= i < x.len() implies x[i] == #[trigger] y[i] by {
                if i >= 1 {
                    assert(x[i] == x.skip(1)[i - 1]);
                    assert(y[i] == y.skip(1)[i - 1]);
                }
            }
            assert(x =~= y);
        }
        lemma_digit_lex_value(x.skip(1), y.skip(1));
    }
}

proof fn lemma_pow10_pos(k: nat)
    ensures
        pow10(k) >= 1,
    decreases k,
{
    if k > 0 {
        lemma_pow10_pos((k - 1) as nat);
    }
}

/// The padded offsets that archive and entry names embed sort
/// lexicographically exactly as the offsets themselves, for every pair that
/// the nine-digit padding can carry: sorting names by text recovers the
/// order of the offsets.
pub proof fn padded_names_sort_by_offset(a: u64, b: u64)
    requires
        a < b,
        b < 1_000_000_000,
    ensures
        lex_leq(padded_offset(a as nat), padded_offset(b as nat)),
        padded_offset(a as nat) != padded_offset(b as nat),
{
    let x = padded_offset(a as nat);
    let y = padded_offset(b as nat);
    reveal_with_fuel(pow10, 10);
    lemma_dec_str_len(a as nat, 9);
    lemma_dec_str_len(b as nat, 9);
    lemma_dec_str_digits(a as nat);
    lemma_dec_str_digits(b as nat);
    lemma_dec_str_value(a as nat);
    lemma_dec_str_value(b as nat);
    lemma_digits_val_zeros(fill_len(dec_str(a as nat).len() as int, 9), dec_str(a as nat));
    lemma_digits_val_zeros(fill_len(dec_str(b as nat).len() as int, 9), dec_str(b as nat));
    assert(x.len() == 9);
    assert(y.len() == 9);
    assert(digits_val(x) == a);
    assert(digits_val(y) == b);
    assert(all_digits(x)) by {
        assert(forall|i: int|
            0 <= i < x.len() - dec_str(a as nat).len() ==> #[trigger] x[i] == '0');
        assert(forall|i: int|
            x.len() - dec_str(a as nat).len() <= i < x.len() ==> #[trigger] x[i] == dec_str(
                a as nat,
            )[i - (x.len() - dec_str(a as nat).len())]);
    }
    assert(all_digits(y)) by {
        assert(forall|i: int|
            0 <= i < y.len() - dec_str(b as nat).len() ==> #[trigger] y[i] == '0');
        assert(forall|i: int|
            y.len() - dec_str(b as nat).len() <= i < y.len() ==> #[trigger] y[i] == dec_str(
                b as nat,
            )[i - (y.len() - dec_str(b as nat).len())]);
    }
    assert(x != y);
    if !lex_leq(x, y) {
        lemma_lex_total(x, y);
        lemma_digit_lex_value(y, x);
    }
}

} // verus!
