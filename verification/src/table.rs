//! Aggregation table: last-known identity and altitude per aircraft
//! address, updated once per decoded frame and rendered as an ordered
//! text report.

use crate::adsb::{ADSBFrame, AdsbMessage, MessageView};
use crate::text::{dec_chars, dec_string};
use vstd::prelude::*;
use vstd::string::StringExecFns;

verus! {

/// One tracked aircraft: its address in canonical lowercase hex form,
/// its last-known callsign (empty while unset) and its last-known raw
/// altitude field (zero while unset).
#[derive(Debug)]
pub struct TableEntry {
    pub icao: String,
    pub callsign: String,
    pub altitude: u64,
}

/// The mathematical value of one table entry.
pub struct EntryView {
    pub icao: Seq<char>,
    pub callsign: Seq<char>,
    pub altitude: nat,
}

impl View for TableEntry {
    type V = EntryView;

    open spec fn view(&self) -> EntryView {
        EntryView { icao: self.icao@, callsign: self.callsign@, altitude: self.altitude as nat }
    }
}

/// The entries of the table, keyed by distinct addresses.
pub open spec fn wf(s: Seq<EntryView>) -> bool {
    forall|i: int, j: int| 0 <= i < j < s.len() ==> s[i].icao != s[j].icao
}

/// The first entry of `s` keyed by `key`, as its callsign/altitude pair.
pub open spec fn spec_lookup(s: Seq<EntryView>, key: Seq<char>) -> Option<(Seq<char>, nat)>
    decreases s.len(),
{
    if s.len() == 0 {
        None
    } else if s[0].icao == key {
        Some((s[0].callsign, s[0].altitude))
    } else {
        spec_lookup(s.drop_first(), key)
    }
}

/// A fresh entry for `key`: both fields at their unset defaults.
pub open spec fn default_entry(key: Seq<char>) -> EntryView {
    EntryView { icao: key, callsign: Seq::empty(), altitude: 0 }
}

/// One update applied to one entry: an identification sets the callsign,
/// either altitude variant sets the altitude (both populate the same
/// scalar), an unknown payload changes nothing. The field not targeted
/// keeps its value.
pub open spec fn apply_msg(e: EntryView, m: MessageView) -> EntryView {
    match m {
        MessageView::Identification(cs) => EntryView { callsign: cs, ..e },
        MessageView::BarometricAltitude(a) => EntryView { altitude: a, ..e },
        MessageView::GnssAltitude(a) => EntryView { altitude: a, ..e },
        MessageView::Unknown(_) => e,
    }
}

/// The table after one update for `key`: the first entry keyed by `key`
/// is updated in place; when none exists, a fresh entry is appended and
/// updated.
pub open spec fn spec_insert(s: Seq<EntryView>, key: Seq<char>, m: MessageView) -> Seq<EntryView>
    decreases s.len(),
{
    if s.len() == 0 {
        seq![apply_msg(default_entry(key), m)]
    } else if s[0].icao == key {
        seq![apply_msg(s[0], m)] + s.drop_first()
    } else {
        seq![s[0]] + spec_insert(s.drop_first(), key, m)
    }
}

/// When the first `k` entries are not keyed by `key` and entry `k` is,
/// the update rewrites entry `k` in place.
proof fn lemma_spec_insert_found(s: Seq<EntryView>, k: int, key: Seq<char>, m: MessageView)
    requires
        0 <= k < s.len(),
        forall|j: int| 0 <= j < k ==> s[j].icao != key,
        s[k].icao == key,
    ensures
        spec_insert(s, key, m) == s.update(k, apply_msg(s[k], m)),
    decreases k,
{
    if k == 0 {
        assert(spec_insert(s, key, m) =~= s.update(0, apply_msg(s[0], m)));
    } else {
        lemma_spec_insert_found(s.drop_first(), k - 1, key, m);
        assert(s.drop_first()[k - 1] == s[k]);
        assert(spec_insert(s, key, m) =~= s.update(k, apply_msg(s[k], m)));
    }
}

/// When no entry is keyed by `key`, the update appends a fresh entry.
proof fn lemma_spec_insert_absent(s: Seq<EntryView>, key: Seq<char>, m: MessageView)
    requires
        forall|j: int| 0 <= j < s.len() ==> s[j].icao != key,
    ensures
        spec_insert(s, key, m) == s.push(apply_msg(default_entry(key), m)),
    decreases s.len(),
{
    if s.len() == 0 {
        assert(spec_insert(s, key, m) =~= s.push(apply_msg(default_entry(key), m)));
    } else {
        lemma_spec_insert_absent(s.drop_first(), key, m);
        assert(spec_insert(s, key, m) =~= s.push(apply_msg(default_entry(key), m)));
    }
}

/// The views of a sequence of entries, elementwise.
pub open spec fn views_of(s: Seq<TableEntry>) -> Seq<EntryView> {
    s.map_values(|t: TableEntry| t@)
}

/// Whether an entry takes part in the rendered report: it does once
/// either field has left its unset default.
pub open spec fn visible(e: EntryView) -> bool {
    e.callsign.len() != 0 || e.altitude != 0
}

/// The entries of `s` that take part in the rendered report, in order.
pub open spec fn visible_entries(s: Seq<EntryView>) -> Seq<EntryView>
    decreases s.len(),
{
    if s.len() == 0 {
        Seq::empty()
    } else {
        (if visible(s[0]) {
            seq![s[0]]
        } else {
            Seq::empty()
        }) + visible_entries(s.drop_first())
    }
}

/// Visibility is decided entry by entry, so filtering commutes with
/// appending one entry.
proof fn lemma_visible_snoc(p: Seq<EntryView>, e: EntryView)
    ensures
        visible_entries(p.push(e)) == visible_entries(p) + (if visible(e) {
            seq![e]
        } else {
            Seq::<EntryView>::empty()
        }),
    decreases p.len(),
{
    let tail = if visible(e) {
        seq![e]
    } else {
        Seq::<EntryView>::empty()
    };
    if p.len() == 0 {
        assert(p.push(e)[0] == e);
        assert(p.push(e).drop_first() =~= Seq::<EntryView>::empty());
        assert(visible_entries(Seq::<EntryView>::empty()) =~= Seq::<EntryView>::empty());
        assert(visible_entries(p.push(e)) =~= visible_entries(p) + tail);
    } else {
        lemma_visible_snoc(p.drop_first(), e);
        let head = if visible(p[0]) {
            seq![p[0]]
        } else {
            Seq::<EntryView>::empty()
        };
        assert(p.push(e)[0] == p[0]);
        assert(p.push(e).drop_first() =~= p.drop_first().push(e));
        assert(visible_entries(p.push(e)) == head + visible_entries(p.drop_first().push(e)));
        assert(visible_entries(p.drop_first().push(e)) == visible_entries(p.drop_first()) + tail);
        assert(visible_entries(p) == head + visible_entries(p.drop_first()));
        assert(head + (visible_entries(p.drop_first()) + tail) =~= (head + visible_entries(
            p.drop_first(),
        )) + tail);
    }
}

/// Ascending altitude order; entries with equal altitudes may stand in
/// any relative order.
pub open spec fn sorted_by_alt(s: Seq<EntryView>) -> bool {
    forall|i: int, j: int| 0 <= i <= j < s.len() ==> s[i].altitude <= s[j].altitude
}

/// Inserting an element anywhere in a sequence inserts it into the
/// sequence's multiset.
proof fn lemma_seq_insert_to_multiset(s: Seq<EntryView>, j: int, e: EntryView)
    requires
        0 <= j <= s.len(),
    ensures
        s.insert(j, e).to_multiset() == s.to_multiset().insert(e),
{
    broadcast use vstd::seq_lib::group_to_multiset_ensures;
    broadcast use vstd::multiset::group_multiset_axioms;

    let t = s.insert(j, e);
    assert(t.remove(j) =~= s);
    assert(t[j] == e);
    assert(t.contains(e));
    assert(s.to_multiset() =~= t.to_multiset().remove(e));
    assert(t.to_multiset() =~= s.to_multiset().insert(e));
}

/// One line of the report: address, callsign or "N/A", altitude with a
/// unit suffix or "N/A" when zero, tab-separated.
pub open spec fn line_chars(e: EntryView) -> Seq<char> {
    e.icao + "\t"@ + (if e.callsign.len() == 0 {
        "N/A"@
    } else {
        e.callsign
    }) + "\t"@ + (if e.altitude == 0 {
        "N/A"@
    } else {
        dec_chars(e.altitude) + "m"@
    })
}

/// The report text for the rows `rows`, one line per row, joined by
/// newlines, with no trailing newline.
pub open spec fn report_chars(rows: Seq<EntryView>) -> Seq<char>
    decreases rows.len(),
{
    if rows.len() == 0 {
        Seq::empty()
    } else if rows.len() == 1 {
        line_chars(rows[0])
    } else {
        line_chars(rows[0]) + "\n"@ + report_chars(rows.drop_first())
    }
}

/// The report of one more row is the report so far, a newline when the
/// report so far is non-empty, and the new row's line.
proof fn lemma_report_snoc(rows: Seq<EntryView>, e: EntryView)
    ensures
        report_chars(rows.push(e)) == if rows.len() == 0 {
            line_chars(e)
        } else {
            report_chars(rows) + "\n"@ + line_chars(e)
        },
    decreases rows.len(),
{
    if rows.len() == 0 {
        assert(rows.push(e)[0] == e);
        assert(rows.push(e).len() == 1);
    } else {
        lemma_report_snoc(rows.drop_first(), e);
        assert(rows.push(e).drop_first() =~= rows.drop_first().push(e));
        assert(rows.push(e)[0] == rows[0]);
        if rows.len() == 1 {
            assert(report_chars(rows.push(e)) =~= report_chars(rows) + "\n"@ + line_chars(e));
        } else {
            assert(report_chars(rows.push(e)) =~= report_chars(rows) + "\n"@ + line_chars(e));
        }
    }
}

/// Process-wide map from aircraft address to last-known identity and
/// altitude; its lifetime is the running session's.
pub struct Table {
    entries: Vec<TableEntry>,
}

impl View for Table {
    type V = Seq<EntryView>;

    closed spec fn view(&self) -> Seq<EntryView> {
        views_of(self.entries@)
    }
}

impl Table {
    /// An empty table: no aircraft seen yet.
    pub fn new() -> (r: Table)
        ensures
            r@ == Seq::<EntryView>::empty(),
    {
        let t = Table { entries: Vec::new() };
        proof {
            assert(t@ =~= Seq::<EntryView>::empty());
        }
        t
    }

    /// Applies one decoded frame: a no-op for unknown payloads; otherwise
    /// the entry for the frame's address — created at its defaults on
    /// first sight — has its callsign or altitude set, the other field
    /// untouched. Distinct addresses keep distinct entries.
    pub fn insert(&mut self, frame: ADSBFrame)
        ensures
            frame.payload@ is Unknown ==> final(self)@ == old(self)@,
            !(frame.payload@ is Unknown) ==> final(self)@ == spec_insert(
                old(self)@,
                frame.icao@,
                frame.payload@,
            ),
            wf(old(self)@) ==> wf(final(self)@),
    {
        let is_unknown = matches!(&frame.payload, AdsbMessage::Unknown(_));
        if is_unknown {
            return ;
        }
        let ghost s0 = self@;
        let ghost key = frame.icao@;
        let ghost m = frame.payload@;
        assert(s0.len() == self.entries@.len());
        let mut k: usize = 0;
        while k < self.entries.len()
            invariant
                k <= self.entries@.len(),
                self@ == s0,
                s0 == old(self)@,
                self.entries@.len() == s0.len(),
                !(m is Unknown),
                m == frame.payload@,
                key == frame.icao@,
                forall|j: int| 0 <= j < k ==> s0[j].icao != key,
            decreases self.entries@.len() - k,
        {
            if self.entries[k].icao.eq(&frame.icao) {
                proof {
                    assert(s0[k as int] == self.entries@[k as int]@);
                    assert(s0[k as int].icao == key);
                }
                let ghost entries0 = self.entries@;
                let ent = self.entries.remove(k);
                let updated = match frame.payload {
                    AdsbMessage::Identification(cs) => TableEntry {
                        icao: ent.icao,
                        callsign: cs,
                        altitude: ent.altitude,
                    },
                    AdsbMessage::BarometricAltitude(a) => TableEntry {
                        icao: ent.icao,
                        callsign: ent.callsign,
                        altitude: a,
                    },
                    AdsbMessage::GnssAltitude(a) => TableEntry {
                        icao: ent.icao,
                        callsign: ent.callsign,
                        altitude: a,
                    },
                    AdsbMessage::Unknown(_) => {
                        assert(false);
                        ent
                    },
                };
                self.entries.insert(k, updated);
                proof {
                    lemma_spec_insert_found(s0, k as int, key, m);
                    assert(self.entries@ =~= entries0.update(k as int, updated));
                    assert(updated@ == apply_msg(s0[k as int], m));
                    assert(self@ =~= s0.update(k as int, apply_msg(s0[k as int], m)));
                    assert(self@ == spec_insert(s0, key, m));
                    assert(wf(s0) ==> wf(self@)) by {
                        if wf(s0) {
                            assert(forall|i: int|
                                0 <= i < self@.len() ==> self@[i].icao == s0[i].icao);
                        }
                    }
                }
                return ;
            }
            k = k + 1;
        }
        let fresh = match frame.payload {
            AdsbMessage::Identification(cs) => TableEntry {
                icao: frame.icao,
                callsign: cs,
                altitude: 0,
            },
            AdsbMessage::BarometricAltitude(a) => TableEntry {
                icao: frame.icao,
                callsign: String::new(),
                altitude: a,
            },
            AdsbMessage::GnssAltitude(a) => TableEntry {
                icao: frame.icao,
                callsign: String::new(),
                altitude: a,
            },
            AdsbMessage::Unknown(_) => {
                assert(false);
                TableEntry { icao: frame.icao, callsign: String::new(), altitude: 0 }
            },
        };
        self.entries.push(fresh);
        proof {
            lemma_spec_insert_absent(s0, key, m);
            assert(self@ =~= s0.push(apply_msg(default_entry(key), m)));
            assert(self@ == spec_insert(s0, key, m));
            assert(wf(s0) ==> wf(self@)) by {
                if wf(s0) {
                    assert(forall|i: int| 0 <= i < s0.len() ==> self@[i].icao == s0[i].icao);
                    assert(self@[s0.len() as int].icao == key);
                }
            }
        }
    }

    /// The last-known callsign/altitude pair recorded for `key`, or
    /// `None` when that address has not been seen.
    pub fn lookup(&self, key: &String) -> (r: Option<(String, u64)>)
        ensures
            match r {
                Some(p) => spec_lookup(self@, key@) == Some((p.0@, p.1 as nat)),
                None => spec_lookup(self@, key@) is None,
            },
    {
        let mut k: usize = 0;
        proof {
            assert(self@.skip(0) =~= self@);
        }
        while k < self.entries.len()
            invariant
                k <= self.entries@.len(),
                self@.len() == self.entries@.len(),
                forall|j: int| 0 <= j < k ==> self@[j].icao != key@,
                spec_lookup(self@, key@) == spec_lookup(self@.skip(k as int), key@),
            decreases self.entries@.len() - k,
        {
            if self.entries[k].icao.eq(key) {
                proof {
                    assert(self@.skip(k as int)[0] == self@[k as int]);
                }
                let e = &self.entries[k];
                return Some((e.callsign.clone(), e.altitude));
            }
            proof {
                assert(self@.skip(k as int).drop_first() =~= self@.skip(k as int + 1));
                assert(self@.skip(k as int)[0] == self@[k as int]);
            }
            k = k + 1;
        }
        proof {
            assert(self@.skip(k as int).len() == 0);
        }
        None
    }

    /// The visible entries of the table, copied in their stored order.
    fn collect_visible(&self) -> (r: Vec<TableEntry>)
        ensures
            views_of(r@) == visible_entries(self@),
    {
        let mut vis: Vec<TableEntry> = Vec::new();
        let mut i: usize = 0;
        proof {
            assert(self@.take(0) =~= Seq::<EntryView>::empty());
            assert(views_of(vis@) =~= visible_entries(self@.take(0)));
        }
        while i < self.entries.len()
            invariant
                i <= self.entries@.len(),
                self@.len() == self.entries@.len(),
                views_of(vis@) == visible_entries(self@.take(i as int)),
            decreases self.entries@.len() - i,
        {
            let e = &self.entries[i];
            if !e.callsign.as_str().is_empty() || e.altitude != 0 {
                let copied = TableEntry {
                    icao: e.icao.clone(),
                    callsign: e.callsign.clone(),
                    altitude: e.altitude,
                };
                assert(copied@ == self@[i as int]);
                vis.push(copied);
            }
            proof {
                lemma_visible_snoc(self@.take(i as int), self@[i as int]);
                assert(self@.take(i as int + 1) =~= self@.take(i as int).push(self@[i as int]));
                assert(views_of(vis@) =~= visible_entries(self@.take(i as int + 1)));
            }
            i = i + 1;
        }
        proof {
            assert(self@.take(self@.len() as int) =~= self@);
        }
        vis
    }

    /// Renders the table as an ordered text report: one tab-separated
    /// line per visible entry, sorted ascending by altitude. An entry
    /// whose callsign and altitude are both still unset never appears.
    pub fn render(&self) -> (r: String)
        ensures
            exists|rows: Seq<EntryView>|
                {
                    &&& rows.to_multiset() == visible_entries(self@).to_multiset()
                    &&& sorted_by_alt(rows)
                    &&& r@ == report_chars(rows)
                },
    {
        let vis = self.collect_visible();
        let sorted = sort_rows(vis);
        let out = report_string(&sorted);
        proof {
            let ghost rows = views_of(sorted@);
            assert(rows.to_multiset() == visible_entries(self@).to_multiset() && sorted_by_alt(
                rows,
            ) && out@ == report_chars(rows));
        }
        out
    }
}

/// Reorders `rows` ascending by altitude; the same entries come out that
/// went in.
fn sort_rows(rows: Vec<TableEntry>) -> (r: Vec<TableEntry>)
    ensures
        sorted_by_alt(views_of(r@)),
        views_of(r@).to_multiset() == views_of(rows@).to_multiset(),
{
    broadcast use vstd::seq_lib::group_to_multiset_ensures;
    broadcast use vstd::multiset::group_multiset_axioms;

    let ghost total = views_of(rows@).to_multiset();
    let mut vis = rows;
    let mut sorted: Vec<TableEntry> = Vec::new();
    proof {
        assert(views_of(sorted@) =~= Seq::<EntryView>::empty());
        assert(views_of(sorted@).to_multiset().add(views_of(vis@).to_multiset()) =~= total);
    }
    while vis.len() > 0
        invariant
            sorted_by_alt(views_of(sorted@)),
            views_of(sorted@).to_multiset().add(views_of(vis@).to_multiset()) == total,
        decreases vis@.len(),
    {
        broadcast use vstd::seq_lib::group_to_multiset_ensures;
        broadcast use vstd::multiset::group_multiset_axioms;

        let ghost vis0 = vis@;
        let e = match vis.pop() {
            Some(e) => e,
            None => {
                assert(false);
                continue ;
            },
        };
        proof {
            assert(views_of(vis0) =~= views_of(vis@).push(e@));
            assert(views_of(vis0).to_multiset() =~= views_of(vis@).to_multiset().insert(e@));
        }
        let alt = e.altitude;
        let mut j: usize = 0;
        while j < sorted.len() && sorted[j].altitude <= alt
            invariant
                j <= sorted@.len(),
                forall|idx: int| 0 <= idx < j ==> views_of(sorted@)[idx].altitude <= alt,
            decreases sorted@.len() - j,
        {
            j = j + 1;
        }
        let ghost sv0 = views_of(sorted@);
        sorted.insert(j, e);
        proof {
            assert(views_of(sorted@) =~= sv0.insert(j as int, e@));
            lemma_seq_insert_to_multiset(sv0, j as int, e@);
            let sv = views_of(sorted@);
            assert forall|i1: int, i2: int| 0 <= i1 <= i2 < sv.len() implies sv[i1].altitude
                <= sv[i2].altitude by {
                if i2 < j {
                    assert(sv[i1] == sv0[i1] && sv[i2] == sv0[i2]);
                } else if i1 > j {
                    assert(sv[i1] == sv0[i1 - 1] && sv[i2] == sv0[i2 - 1]);
                } else if i1 == j && i2 == j {
                } else if i1 < j && i2 == j {
                    assert(sv[i1] == sv0[i1]);
                } else if i1 == j {
                    assert(sv[i2] == sv0[i2 - 1]);
                    assert(sv0[j as int].altitude > alt);
                    assert(sv0[i2 - 1].altitude >= sv0[j as int].altitude);
                } else {
                    assert(sv[i1] == sv0[i1]);
                    assert(sv[i2] == sv0[i2 - 1]);
                    assert(sv0[i2 - 1].altitude >= sv0[j as int].altitude);
                    assert(sv0[j as int].altitude > alt);
                    assert(sv0[i1].altitude <= alt);
                }
            }
        }
    }
    proof {
        assert(views_of(vis@) =~= Seq::<EntryView>::empty());
        assert(views_of(sorted@).to_multiset() =~= total);
    }
    sorted
}

/// Builds the report text for `rows`, in their given order.
fn report_string(rows: &Vec<TableEntry>) -> (r: String)
    ensures
        r@ == report_chars(views_of(rows@)),
{
    let ghost rowsv = views_of(rows@);
    let mut out = String::new();
    let mut k: usize = 0;
    proof {
        assert(rowsv.take(0) =~= Seq::<EntryView>::empty());
    }
    while k < rows.len()
        invariant
            k <= rows@.len(),
            rowsv == views_of(rows@),
            rowsv.len() == rows@.len(),
            out@ == report_chars(rowsv.take(k as int)),
        decreases rows@.len() - k,
    {
        let ghost prefix = rowsv.take(k as int);
        let ghost ev = rowsv[k as int];
        if k > 0 {
            out.append("\n");
        }
        let e = &rows[k];
        out.append(e.icao.as_str());
        out.append("\t");
        if e.callsign.as_str().is_empty() {
            out.append("N/A");
        } else {
            out.append(e.callsign.as_str());
        }
        out.append("\t");
        if e.altitude == 0 {
            out.append("N/A");
        } else {
            let d = dec_string(e.altitude);
            out.append(d.as_str());
            out.append("m");
        }
        proof {
            lemma_report_snoc(prefix, ev);
            assert(rowsv.take(k as int + 1) =~= prefix.push(ev));
            if k == 0 {
                assert(out@ =~= line_chars(ev));
            } else {
                assert(out@ =~= report_chars(prefix) + "\n"@ + line_chars(ev));
            }
            assert(out@ == report_chars(rowsv.take(k as int + 1)));
        }
        k = k + 1;
    }
    proof {
        assert(rowsv.take(rowsv.len() as int) =~= rowsv);
    }
    out
}

/// The first entry for `key` after one update carries the updated pair:
/// the update's field set, the other field kept from the entry the table
/// had for `key`, or from the defaults when it had none.
proof fn lemma_lookup_insert_same(s: Seq<EntryView>, key: Seq<char>, m: MessageView)
    ensures
        spec_lookup(spec_insert(s, key, m), key) == ({
            let base = match spec_lookup(s, key) {
                Some(p) => EntryView { icao: key, callsign: p.0, altitude: p.1 },
                None => default_entry(key),
            };
            let e = apply_msg(base, m);
            Some((e.callsign, e.altitude))
        }),
    decreases s.len(),
{
    if s.len() == 0 {
    } else if s[0].icao == key {
        assert(spec_insert(s, key, m)[0] == apply_msg(s[0], m));
        assert(apply_msg(s[0], m).icao == key);
    } else {
        lemma_lookup_insert_same(s.drop_first(), key, m);
        assert(spec_insert(s, key, m)[0] == s[0]);
        assert(spec_insert(s, key, m).drop_first() =~= spec_insert(s.drop_first(), key, m));
    }
}

/// An update for `key` leaves the entry of every other address exactly
/// as it was.
proof fn lemma_lookup_insert_other(s: Seq<EntryView>, key: Seq<char>, m: MessageView, k2: Seq<
    char,
>)
    requires
        k2 != key,
    ensures
        spec_lookup(spec_insert(s, key, m), k2) == spec_lookup(s, k2),
    decreases s.len(),
{
    let t = spec_insert(s, key, m);
    if s.len() == 0 {
        assert(t[0] == apply_msg(default_entry(key), m));
        assert(apply_msg(default_entry(key), m).icao == key);
        assert(t.drop_first() =~= Seq::<EntryView>::empty());
        assert(spec_lookup(t.drop_first(), k2) is None);
        assert(spec_lookup(t, k2) is None);
    } else if s[0].icao == key {
        assert(t[0] == apply_msg(s[0], m));
        assert(apply_msg(s[0], m).icao == key);
        assert(t.drop_first() =~= s.drop_first());
        assert(spec_lookup(t, k2) == spec_lookup(s.drop_first(), k2));
        assert(spec_lookup(s, k2) == spec_lookup(s.drop_first(), k2));
    } else {
        lemma_lookup_insert_other(s.drop_first(), key, m, k2);
        assert(t[0] == s[0]);
        assert(t.drop_first() =~= spec_insert(s.drop_first(), key, m));
        if s[0].icao == k2 {
            assert(spec_lookup(t, k2) == Some((s[0].callsign, s[0].altitude)));
            assert(spec_lookup(s, k2) == Some((s[0].callsign, s[0].altitude)));
        } else {
            assert(spec_lookup(t, k2) == spec_lookup(t.drop_first(), k2));
            assert(spec_lookup(s, k2) == spec_lookup(s.drop_first(), k2));
        }
    }
}

/// Two sequential updates for one address — an identification, then
/// either altitude variant — leave that address's entry with both fields
/// populated, neither update overwriting the field the other set, and
/// leave every other address's entry unchanged.
pub proof fn lemma_identification_then_altitude(
    s: Seq<EntryView>,
    key: Seq<char>,
    cs: Seq<char>,
    m2: MessageView,
    alt: nat,
)
    requires
        m2 == MessageView::BarometricAltitude(alt) || m2 == MessageView::GnssAltitude(alt),
    ensures
        ({
            let s1 = spec_insert(s, key, MessageView::Identification(cs));
            let s2 = spec_insert(s1, key, m2);
            &&& spec_lookup(s2, key) == Some((cs, alt))
            &&& forall|k2: Seq<char>|
                k2 != key ==> spec_lookup(s2, k2) == spec_lookup(s, k2)
        }),
{
    let s1 = spec_insert(s, key, MessageView::Identification(cs));
    let s2 = spec_insert(s1, key, m2);
    lemma_lookup_insert_same(s, key, MessageView::Identification(cs));
    lemma_lookup_insert_same(s1, key, m2);
    assert forall|k2: Seq<char>| k2 != key implies spec_lookup(s2, k2) == spec_lookup(
        s,
        k2,
    ) by {
        lemma_lookup_insert_other(s, key, MessageView::Identification(cs), k2);
        lemma_lookup_insert_other(s1, key, m2, k2);
    }
}

} // verus!
