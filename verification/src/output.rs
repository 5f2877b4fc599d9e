//! The result file: one JSON object with the text of each entity under its identifier.

use vstd::prelude::*;
use vstd::string::StringExecFns;

use crate::number::{all_digits, decimal, decimal_text, is_digit, law_decimal_reads_back};
use crate::quote::{escaped, law_quoted_reads_back, quote, quoted, read_string};

verus! {

/// A record: the identifier of an entity and its text.
pub type RecordModel = (u64, Seq<char>);

/// A record as a member of a JSON object.
pub open spec fn member(record: RecordModel) -> Seq<char> {
    quoted(decimal(record.0 as nat)) + seq![':'] + quoted(record.1)
}

/// Records as the members of a JSON object, with commas between them.
pub open spec fn members(records: Seq<RecordModel>) -> Seq<char>
    decreases records.len(),
{
    if records.len() == 0 {
        Seq::empty()
    } else if records.len() == 1 {
        member(records[0])
    } else {
        member(records[0]) + seq![','] + members(records.drop_first())
    }
}

/// Records as a JSON object.
pub open spec fn object(records: Seq<RecordModel>) -> Seq<char> {
    seq!['{'] + members(records) + seq!['}']
}

proof fn lemma_members_push(records: Seq<RecordModel>, record: RecordModel)
    ensures
        members(records.push(record)) == members(records) + (if records.len() == 0 {
            Seq::empty()
        } else {
            seq![',']
        }) + member(record),
    decreases records.len(),
{
    let longer = records.push(record);
    if records.len() == 0 {
        assert(members(longer) =~= members(records) + Seq::empty() + member(record));
    } else {
        let rest = records.drop_first();
        assert(longer.drop_first() =~= rest.push(record));
        lemma_members_push(rest, record);
        if records.len() == 1 {
            assert(members(rest) =~= Seq::empty());
            assert(members(longer) =~= members(records) + seq![','] + member(record));
        } else {
            assert(members(longer) =~= members(records) + seq![','] + member(record));
        }
    }
}

/// The result file is an object of members with single commas between them, and nothing else.
pub proof fn law_members_are_put_together(
    record: RecordModel,
    records: Seq<RecordModel>,
    more: Seq<RecordModel>,
)
    ensures
        object(records) == seq!['{'] + members(records) + seq!['}'],
        members(Seq::empty()).len() == 0,
        members(seq![record]) == member(record),
        records.len() > 0 && more.len() > 0 ==> members(records + more) == members(records) + seq![
            ',',
        ] + members(more),
    decreases records.len(),
{
    if records.len() > 0 && more.len() > 0 {
        let rest = records.drop_first();
        assert((records + more).drop_first() =~= rest + more);
        if rest.len() == 0 {
            assert(rest + more =~= more);
        } else {
            law_members_are_put_together(record, rest, more);
            assert(members(records + more) =~= members(records) + seq![','] + members(more));
        }
    }
}

/// A member is the identifier in decimal between two quotes, a colon, and the text as a JSON
/// string.
pub proof fn law_member_has_identifier_and_text(record: RecordModel)
    ensures
        member(record) == seq!['"'] + decimal(record.0 as nat) + seq!['"', ':'] + quoted(record.1),
{
    let key = decimal(record.0 as nat);
    law_decimal_reads_back(record.0 as nat);
    lemma_digits_stand_for_themselves(key);
    assert(member(record) =~= seq!['"'] + key + seq!['"', ':'] + quoted(record.1));
}

proof fn lemma_digits_stand_for_themselves(s: Seq<char>)
    requires
        all_digits(s),
    ensures
        escaped(s) == s,
    decreases s.len(),
{
    if s.len() > 0 {
        let rest = s.drop_first();
        assert(is_digit(s[0]));
        assert forall|i: int| 0 <= i < rest.len() implies is_digit(#[trigger] rest[i]) by {
            assert(rest[i] == s[i + 1]);
        }
        lemma_digits_stand_for_themselves(rest);
        assert(escaped(s) =~= s);
    } else {
        assert(escaped(s) =~= s);
    }
}

/// Writes the result file piece by piece.
///
/// The pieces in the order in which they come out make up the file: the opening, one piece
/// for each record, the closing.
pub struct RecordWriter {
    first_item: bool,
    records: Ghost<Seq<RecordModel>>,
    written: Ghost<Seq<char>>,
}

impl RecordWriter {
    #[verifier::type_invariant]
    spec fn written_so_far(self) -> bool {
        &&& self.first_item == (self.records@.len() == 0)
        &&& self.written@ == seq!['{'] + members(self.records@)
    }

    /// The records that have been written.
    pub closed spec fn records(self) -> Seq<RecordModel> {
        self.records@
    }

    /// All that has come out.
    pub closed spec fn written(self) -> Seq<char> {
        self.written@
    }

    /// Opens the object.
    pub fn open() -> (opened: (RecordWriter, String))
        ensures
            opened.0.records() == Seq::<RecordModel>::empty(),
            opened.0.written() == opened.1@,
            opened.1@ == seq!['{'],
    {
        proof {
            reveal_strlit("{");
            assert("{"@ =~= seq!['{'] + members(Seq::empty()));
        }
        let opening = "{".to_owned();
        let writer = RecordWriter {
            first_item: true,
            records: Ghost(Seq::empty()),
            written: Ghost(opening@),
        };
        assert(opening@ =~= seq!['{']);
        (writer, opening)
    }

    /// Adds a record.
    pub fn record(&mut self, id: u64, text: &str) -> (piece: String)
        ensures
            final(self).records() == old(self).records().push((id, text@)),
            final(self).written() == old(self).written() + piece@,
            piece@ == (if old(self).records().len() == 0 {
                Seq::empty()
            } else {
                seq![',']
            }) + member((id, text@)),
    {
        proof {
            use_type_invariant(&*self);
            reveal_strlit(",");
            reveal_strlit(":");
        }
        let mut piece = String::new();
        if !self.first_item {
            piece.append(",");
        }
        let ghost comma = piece@;
        piece.append(quote(decimal_text(id).as_str()).as_str());
        piece.append(":");
        piece.append(quote(text).as_str());
        assert(piece@ =~= comma + member((id, text@)));
        let ghost records = self.records@.push((id, text@));
        let ghost written = self.written@ + piece@;
        proof {
            lemma_members_push(self.records@, (id, text@));
            assert(comma =~= if self.records@.len() == 0 {
                Seq::empty()
            } else {
                seq![',']
            });
            assert(written =~= seq!['{'] + members(records));
        }
        *self = RecordWriter {
            first_item: false,
            records: Ghost(records),
            written: Ghost(written),
        };
        piece
    }

    /// Closes the object.
    pub fn close(self) -> (closing: String)
        ensures
            closing@ == seq!['}'],
            self.written() + closing@ == object(self.records()),
    {
        proof {
            use_type_invariant(&self);
            reveal_strlit("}");
            assert("}"@ =~= seq!['}']);
        }
        "}".to_owned()
    }
}

/// The key and the text of the member at the front of `s`, and what follows it.
pub open spec fn read_member(s: Seq<char>) -> Option<(Seq<char>, Seq<char>, Seq<char>)> {
    match read_string(s) {
        Some((key, rest)) => if rest.len() > 0 && rest[0] == ':' {
            match read_string(rest.skip(1)) {
                Some((text, rest)) => Some((key, text, rest)),
                None => None,
            }
        } else {
            None
        },
        None => None,
    }
}

/// The members of a JSON object of strings from behind its opening brace on, where it has
/// members and nothing follows its closing brace.
pub open spec fn read_members(s: Seq<char>) -> Option<Seq<(Seq<char>, Seq<char>)>>
    decreases s.len(),
{
    match read_member(s) {
        Some((key, text, rest)) => if rest == seq!['}'] {
            Some(seq![(key, text)])
        } else if 0 < rest.len() <= s.len() && rest[0] == ',' {
            match read_members(rest.skip(1)) {
                Some(more) => Some(seq![(key, text)] + more),
                None => None,
            }
        } else {
            None
        },
        None => None,
    }
}

/// The keys and texts of a JSON object of strings that is written without white space.
pub open spec fn read_object(s: Seq<char>) -> Option<Seq<(Seq<char>, Seq<char>)>> {
    if s == seq!['{', '}'] {
        Some(Seq::empty())
    } else if s.len() > 0 && s[0] == '{' {
        read_members(s.skip(1))
    } else {
        None
    }
}

/// What the members of the result file are: each text under its identifier in decimal.
pub open spec fn keyed(records: Seq<RecordModel>) -> Seq<(Seq<char>, Seq<char>)> {
    Seq::new(records.len(), |i: int| (decimal(records[i].0 as nat), records[i].1))
}

proof fn lemma_member_reads_back(record: RecordModel, rest: Seq<char>)
    ensures
        read_member(member(record) + rest) == Some((decimal(record.0 as nat), record.1, rest)),
{
    let key = decimal(record.0 as nat);
    let behind = seq![':'] + quoted(record.1) + rest;
    assert(member(record) + rest =~= quoted(key) + behind);
    law_quoted_reads_back(key, behind);
    assert(behind.skip(1) =~= quoted(record.1) + rest);
    law_quoted_reads_back(record.1, rest);
}

proof fn lemma_members_read_back(records: Seq<RecordModel>)
    requires
        records.len() > 0,
    ensures
        read_members(members(records) + seq!['}']) == Some(keyed(records)),
    decreases records.len(),
{
    let s = members(records) + seq!['}'];
    let first = records[0];
    let one = seq![(decimal(first.0 as nat), first.1)];
    if records.len() == 1 {
        lemma_member_reads_back(first, seq!['}']);
        assert(one =~= keyed(records));
    } else {
        let more = records.drop_first();
        let rest = seq![','] + members(more) + seq!['}'];
        assert(s =~= member(first) + rest);
        lemma_member_reads_back(first, rest);
        assert(rest[0] == ',');
        assert(rest.skip(1) =~= members(more) + seq!['}']);
        lemma_members_read_back(more);
        assert(one + keyed(more) =~= keyed(records));
    }
}

/// Every record is read back from the result file, in the order in which the records were
/// written.
pub proof fn law_records_read_back(records: Seq<RecordModel>)
    ensures
        read_object(object(records)) == Some(keyed(records)),
{
    let s = object(records);
    if records.len() == 0 {
        assert(s =~= seq!['{', '}']);
        assert(keyed(records) =~= Seq::empty());
    } else {
        assert(s.skip(1) =~= members(records) + seq!['}']);
        lemma_members_read_back(records);
        lemma_member_starts(records);
        assert(s[1] == '"');
    }
}

/// The result file has one member for each record, in its place, with the identifier of the
/// record in decimal and the whole of its text.
pub proof fn law_each_record_reads_back(records: Seq<RecordModel>, i: int)
    ensures
        read_object(object(records)) matches Some(read) && {
            &&& read.len() == records.len()
            &&& 0 <= i < records.len() ==> read[i].0 == decimal(records[i].0 as nat) && read[i].1
                == records[i].1
        },
{
    law_records_read_back(records);
}

proof fn lemma_member_starts(records: Seq<RecordModel>)
    requires
        records.len() > 0,
    ensures
        members(records).len() > 0,
        members(records)[0] == '"',
{
    assert(member(records[0])[0] == '"');
}

} // verus!
