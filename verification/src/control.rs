//! RFC-822-like control paragraphs: the line format shared by `Release`,
//! `Packages` and `Sources` files.
//!
//! A control file is a sequence of paragraphs separated by blank lines.
//! Each paragraph is a sequence of `Name: value` fields; a line starting
//! with a space or tab continues the value of the preceding field.

use vstd::prelude::*;
use vstd::string::*;
use crate::error::DebianError;
use crate::strutil::{
    find_char, first_index_or, is_ws_char, parse_u64, split_char, split_spec, str_eq,
    substr_copy, trim_ws, trim_ws_leading, trim_ws_leading_spec, trim_ws_spec, all_dec_digits,
    dec_val,
};

verus! {

/// One `Name: value` field of a control paragraph.
#[derive(Clone, Debug)]
pub struct ControlField {
    pub name: String,
    pub value: String,
}

impl View for ControlField {
    type V = (Seq<char>, Seq<char>);

    open spec fn view(&self) -> (Seq<char>, Seq<char>) {
        (self.name@, self.value@)
    }
}

impl DeepView for ControlField {
    type V = (Seq<char>, Seq<char>);

    open spec fn deep_view(&self) -> (Seq<char>, Seq<char>) {
        self.view()
    }
}

/// One control paragraph: its fields, in file order.
#[derive(Clone, Debug)]
pub struct ControlParagraph {
    pub fields: Vec<ControlField>,
}

impl View for ControlParagraph {
    type V = Seq<(Seq<char>, Seq<char>)>;

    open spec fn view(&self) -> Seq<(Seq<char>, Seq<char>)> {
        Seq::new(self.fields@.len(), |i: int| self.fields@[i]@)
    }
}

impl DeepView for ControlParagraph {
    type V = Seq<(Seq<char>, Seq<char>)>;

    open spec fn deep_view(&self) -> Seq<(Seq<char>, Seq<char>)> {
        self.view()
    }
}

// ---------------------------------------------------------------------------
// The paragraph grammar
// ---------------------------------------------------------------------------

pub open spec fn is_blank_line(line: Seq<char>) -> bool {
    line.len() == 0
}

pub open spec fn is_continuation_line(line: Seq<char>) -> bool {
    line.len() > 0 && is_ws_char(line[0])
}

/// `Name: value` with a non-empty name; the value is trimmed.
pub open spec fn parse_field_line(line: Seq<char>) -> Option<(Seq<char>, Seq<char>)> {
    let i = first_index_or(line, ':');
    if i == 0 || i >= line.len() {
        None
    } else {
        Some((line.subrange(0, i), trim_ws_spec(line.subrange(i + 1, line.len() as int))))
    }
}

/// The value of a field extended by a continuation line.
pub open spec fn extend_field_value(value: Seq<char>, line: Seq<char>) -> Seq<char> {
    value + seq!['\n'] + trim_ws_leading_spec(line)
}

/// Fold the lines of a control file into paragraphs.
///
/// `cur` is the paragraph being accumulated and `done` the finished ones;
/// `None` marks a malformed line.
pub open spec fn parse_lines(
    lines: Seq<Seq<char>>,
    cur: Seq<(Seq<char>, Seq<char>)>,
    done: Seq<Seq<(Seq<char>, Seq<char>)>>,
) -> Option<Seq<Seq<(Seq<char>, Seq<char>)>>>
    decreases lines.len(),
{
    if lines.len() == 0 {
        if cur.len() > 0 {
            Some(done.push(cur))
        } else {
            Some(done)
        }
    } else {
        let line = lines[0];
        let rest = lines.subrange(1, lines.len() as int);
        if is_blank_line(line) {
            if cur.len() > 0 {
                parse_lines(rest, Seq::empty(), done.push(cur))
            } else {
                parse_lines(rest, cur, done)
            }
        } else if is_continuation_line(line) {
            if cur.len() == 0 {
                None
            } else {
                let last = cur[cur.len() - 1];
                parse_lines(
                    rest,
                    cur.update(cur.len() - 1, (last.0, extend_field_value(last.1, line))),
                    done,
                )
            }
        } else {
            match parse_field_line(line) {
                Some(f) => parse_lines(rest, cur.push(f), done),
                None => None,
            }
        }
    }
}

/// The paragraphs denoted by a control file, or `None` when malformed.
pub open spec fn parse_control_spec(s: Seq<char>) -> Option<Seq<Seq<(Seq<char>, Seq<char>)>>> {
    parse_lines(split_spec(s, '\n'), Seq::empty(), Seq::empty())
}

// ---------------------------------------------------------------------------
// The parser
// ---------------------------------------------------------------------------

/// Parse a control file into its paragraphs.
///
/// Succeeds exactly when every line is blank, a `Name: value` field with a
/// non-empty name, or a continuation of a preceding field.
pub fn parse_paragraphs(s: &str) -> (r: Result<Vec<ControlParagraph>, DebianError>)
    ensures
        r is Ok <==> parse_control_spec(s@) is Some,
        r matches Ok(v) ==> v.deep_view() == parse_control_spec(s@).unwrap(),
        r matches Err(e) ==> e matches DebianError::ControlParseError(_),
{
    let lines = split_char(s, '\n');
    let ghost all_lines: Seq<Seq<char>> = lines.deep_view();
    let mut cur: Vec<ControlField> = Vec::new();
    let mut done: Vec<ControlParagraph> = Vec::new();
    let n = lines.len();
    let mut i: usize = 0;
    proof {
        assert(all_lines.subrange(0, n as int) =~= all_lines);
        assert(cur_model(&cur) =~= Seq::<(Seq<char>, Seq<char>)>::empty());
        assert(done_model(&done) =~= Seq::<Seq<(Seq<char>, Seq<char>)>>::empty());
    }
    while i < n
        invariant
            n == lines@.len(),
            all_lines == lines.deep_view(),
            all_lines == split_spec(s@, '\n'),
            0 <= i <= n,
            parse_lines(all_lines.subrange(i as int, n as int), cur_model(&cur), done_model(&done))
                == parse_control_spec(s@),
        decreases n - i,
    {
        let ghost rem = all_lines.subrange(i as int, n as int);
        let ghost rest = all_lines.subrange(i + 1, n as int);
        proof {
            assert(rem.len() > 0);
            assert(rem[0] == lines@[i as int]@);
            assert(rem.subrange(1, rem.len() as int) =~= rest);
        }
        let line: &String = &lines[i];
        let ln = line.as_str().unicode_len();
        if ln == 0 {
            if cur.len() > 0 {
                let para = ControlParagraph { fields: cur };
                let ghost old_done = done_model(&done);
                let ghost old_cur = cur_model(&para.fields);
                done.push(para);
                cur = Vec::new();
                proof {
                    assert(done_model(&done) =~= old_done.push(old_cur));
                    assert(cur_model(&cur) =~= Seq::<(Seq<char>, Seq<char>)>::empty());
                }
            }
        } else {
            let c0 = line.as_str().get_char(0);
            if c0 == ' ' || c0 == '\t' {
                if cur.len() == 0 {
                    proof {
                        assert(cur_model(&cur) =~= Seq::<(Seq<char>, Seq<char>)>::empty());
                    }
                    return Err(DebianError::ControlParseError(line.clone()));
                }
                let ghost old_model = cur_model(&cur);
                let mut last = cur.pop().unwrap();
                let ghost old_last = last@;
                proof {
                    assert(old_last == old_model[old_model.len() - 1]);
                }
                let ext = trim_ws_leading(line.as_str());
                last.value = last.value.concat("\n").concat(ext.as_str());
                proof {
                    reveal_strlit("\n");
                    assert("\n"@ =~= seq!['\n']);
                    assert(last@.1 =~= extend_field_value(old_last.1, rem[0]));
                }
                cur.push(last);
                proof {
                    assert(cur_model(&cur) =~= old_model.update(
                        old_model.len() - 1,
                        (old_last.0, extend_field_value(old_last.1, rem[0])),
                    ));
                }
            } else {
                let ci = find_char(line.as_str(), ':');
                if ci == 0 || ci >= ln {
                    return Err(DebianError::ControlParseError(line.clone()));
                }
                let name = substr_copy(line.as_str(), 0, ci);
                let value = trim_ws(line.as_str().substring_char(ci + 1, ln));
                let ghost old_cur = cur_model(&cur);
                let f = ControlField { name, value };
                let ghost fv = f@;
                cur.push(f);
                proof {
                    assert(parse_field_line(rem[0]) == Some(fv));
                    assert(cur_model(&cur) =~= old_cur.push(fv));
                }
            }
        }
        i += 1;
    }
    proof {
        assert(all_lines.subrange(n as int, n as int) =~= Seq::<Seq<char>>::empty());
    }
    if cur.len() > 0 {
        let para = ControlParagraph { fields: cur };
        let ghost old_done = done_model(&done);
        let ghost old_cur = cur_model(&para.fields);
        done.push(para);
        proof {
            assert(done_model(&done) =~= old_done.push(old_cur));
            assert(done.deep_view() =~= done_model(&done));
        }
        Ok(done)
    } else {
        proof {
            assert(done.deep_view() =~= done_model(&done));
        }
        Ok(done)
    }
}

/// The model of a partially built paragraph.
pub open spec fn cur_model(cur: &Vec<ControlField>) -> Seq<(Seq<char>, Seq<char>)> {
    Seq::new(cur@.len(), |i: int| cur@[i]@)
}

/// The model of the finished paragraphs.
pub open spec fn done_model(done: &Vec<ControlParagraph>) -> Seq<Seq<(Seq<char>, Seq<char>)>> {
    Seq::new(done@.len(), |i: int| done@[i]@)
}

// ---------------------------------------------------------------------------
// Field access
// ---------------------------------------------------------------------------

/// The value of the first field named `name`, scanning from the front.
pub open spec fn lookup_field(
    fields: Seq<(Seq<char>, Seq<char>)>,
    name: Seq<char>,
) -> Option<Seq<char>>
    decreases fields.len(),
{
    if fields.len() == 0 {
        None
    } else if fields[0].0 == name {
        Some(fields[0].1)
    } else {
        lookup_field(fields.subrange(1, fields.len() as int), name)
    }
}

impl ControlParagraph {
    /// The value of the first field named `name`, if any.
    pub fn field(&self, name: &str) -> (r: Option<String>)
        ensures
            r is Some <==> lookup_field(self@, name@) is Some,
            r matches Some(v) ==> v@ == lookup_field(self@, name@).unwrap(),
    {
        let n = self.fields.len();
        let mut i: usize = 0;
        proof {
            assert(self@.subrange(0, n as int) =~= self@);
        }
        while i < n
            invariant
                n == self.fields@.len(),
                0 <= i <= n,
                lookup_field(self@.subrange(i as int, n as int), name@) == lookup_field(
                    self@,
                    name@,
                ),
                forall|j: int| 0 <= j < i ==> #[trigger] self@[j].0 != name@,
            decreases n - i,
        {
            let ghost rem = self@.subrange(i as int, n as int);
            proof {
                assert(rem[0] == self@[i as int]);
                assert(rem.subrange(1, rem.len() as int) =~= self@.subrange(i + 1, n as int));
            }
            if str_eq(self.fields[i].name.as_str(), name) {
                return Some(self.fields[i].value.clone());
            }
            i += 1;
        }
        proof {
            assert(self@.subrange(n as int, n as int) =~= Seq::<(Seq<char>, Seq<char>)>::empty());
        }
        None
    }

    /// The value of `name` parsed as a decimal `u64`.
    ///
    /// `None` when the field is absent; `Some(Err(..))` when its value is
    /// not a decimal number that fits.
    pub fn field_u64(&self, name: &str) -> (r: Option<Result<u64, DebianError>>)
        ensures
            r is Some <==> lookup_field(self@, name@) is Some,
            r matches Some(inner) ==> {
                let v = lookup_field(self@, name@).unwrap();
                &&& (inner is Ok <==> v.len() >= 1 && all_dec_digits(v) && dec_val(v) <= u64::MAX)
                &&& (inner matches Ok(x) ==> x as int == dec_val(v))
                &&& (inner matches Err(e) ==> e matches DebianError::ControlFieldIntParse(f)
                    && f@ == name@)
            },
    {
        match self.field(name) {
            Some(v) => {
                match parse_u64(v.as_str()) {
                    Some(x) => Some(Ok(x)),
                    None => Some(
                        Err(DebianError::ControlFieldIntParse(String::from_str(name))),
                    ),
                }
            },
            None => None,
        }
    }

    /// A copy carrying the same fields.
    pub fn duplicate(&self) -> (r: ControlParagraph)
        ensures
            r@ == self@,
    {
        let mut fields: Vec<ControlField> = Vec::new();
        let n = self.fields.len();
        let mut i: usize = 0;
        while i < n
            invariant
                n == self.fields@.len(),
                0 <= i <= n,
                fields@.len() == i,
                forall|j: int| 0 <= j < i ==> (#[trigger] fields@[j])@ == self.fields@[j]@,
            decreases n - i,
        {
            fields.push(
                ControlField {
                    name: self.fields[i].name.clone(),
                    value: self.fields[i].value.clone(),
                },
            );
            i += 1;
        }
        let r = ControlParagraph { fields };
        proof {
            assert(r@ =~= self@);
        }
        r
    }

    /// The value of `name`, or `ControlRequiredFieldMissing` when absent.
    pub fn required_field(&self, name: &str) -> (r: Result<String, DebianError>)
        ensures
            r is Ok <==> lookup_field(self@, name@) is Some,
            r matches Ok(v) ==> v@ == lookup_field(self@, name@).unwrap(),
            r matches Err(e) ==> e matches DebianError::ControlRequiredFieldMissing(f) && f@
                == name@,
    {
        match self.field(name) {
            Some(v) => Ok(v),
            None => Err(DebianError::ControlRequiredFieldMissing(String::from_str(name))),
        }
    }
}

} // verus!
