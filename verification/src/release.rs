//! The `[In]Release` manifest: its checksum tables, the classification of
//! the index files they name, and `by-hash` path construction.

use vstd::prelude::*;
use vstd::string::*;
use crate::checksum::{
    digest_len_spec, hex_decode, hex_decode_spec, hex_encode, hex_encode_spec, ChecksumType,
    ContentDigest,
};
use crate::compression::Compression;
use crate::control::{
    lookup_field, parse_control_spec, parse_paragraphs, ControlParagraph,
};
use crate::error::DebianError;
use crate::strutil::{
    all_dec_digits, dec_str, dec_val, ends_with, ends_with_spec, join_lines, join_nl, last_index_of, parse_u64,
    rfind_char_end, split_char, split_spec, starts_with, starts_with_spec, str_eq, substr_copy,
    tokenize_ws, tokens_spec, u64_to_dec, usize_to_dec,
};

verus! {

// ---------------------------------------------------------------------------
// Checksum table rows
// ---------------------------------------------------------------------------

/// One row of a Release checksum table: a path with its size and digest.
#[derive(Clone, Debug)]
pub struct ReleaseFileEntry {
    pub path: String,
    pub size: u64,
    pub digest: ContentDigest,
}

impl ReleaseFileEntry {
    pub open spec fn model(&self) -> (Seq<char>, int, Seq<u8>) {
        (self.path@, self.size as int, self.digest.digest@)
    }

    /// The `by-hash` form of this entry's path:
    /// `{dir}/by-hash/{ALGO}/{lowercase hex digest}`.
    pub fn by_hash_path(&self) -> (r: String)
        ensures
            r@ == by_hash_path_spec(self.path@, self.digest.algorithm, self.digest.digest@),
    {
        proof {
            crate::strutil::lemma_last_index_of(self.path@, '/');
        }
        let dir_end = rfind_char_end(self.path.as_str(), '/');
        let dir = substr_copy(self.path.as_str(), 0, dir_end);
        let r = dir
            .concat("by-hash/")
            .concat(self.digest.algorithm.field_name())
            .concat("/")
            .concat(hex_encode(&self.digest.digest).as_str());
        proof {
            assert(r@ =~= by_hash_path_spec(
                self.path@,
                self.digest.algorithm,
                self.digest.digest@,
            ));
        }
        r
    }
}

impl ReleaseFileEntry {
    /// A copy carrying the same path, size and digest.
    pub fn duplicate(&self) -> (r: ReleaseFileEntry)
        ensures
            r.path@ == self.path@,
            r.size == self.size,
            r.digest.algorithm == self.digest.algorithm,
            r.digest.digest@ == self.digest.digest@,
    {
        ReleaseFileEntry {
            path: self.path.clone(),
            size: self.size,
            digest: self.digest.duplicate(),
        }
    }
}

/// The Release-file name of a checksum algorithm, as used in tables and
/// `by-hash` paths.
pub open spec fn checksum_name_spec(t: ChecksumType) -> Seq<char> {
    match t {
        ChecksumType::Md5 => "MD5Sum"@,
        ChecksumType::Sha1 => "SHA1"@,
        ChecksumType::Sha256 => "SHA256"@,
    }
}

/// `{dir of path}/by-hash/{ALGO}/{hex}`; the directory prefix keeps its
/// trailing slash and is empty for a bare filename.
pub open spec fn by_hash_path_spec(path: Seq<char>, t: ChecksumType, digest: Seq<u8>) -> Seq<char> {
    let dir = path.subrange(0, last_index_of(path, '/') + 1);
    dir + "by-hash/"@ + checksum_name_spec(t) + "/"@ + hex_encode_spec(digest)
}

// ---------------------------------------------------------------------------
// Checksum table parsing
// ---------------------------------------------------------------------------

/// The rows denoted by the lines of a checksum table under algorithm `t`.
///
/// A row is `{hex digest} {decimal size} {path}`; whitespace-only lines
/// are skipped; anything else is malformed (`None`).
pub open spec fn rows_spec(
    lines: Seq<Seq<char>>,
    t: ChecksumType,
) -> Option<Seq<(Seq<char>, int, Seq<u8>)>>
    decreases lines.len(),
{
    if lines.len() == 0 {
        Some(Seq::empty())
    } else {
        let toks = tokens_spec(lines[0]);
        let rest = rows_spec(lines.subrange(1, lines.len() as int), t);
        if toks.len() == 0 {
            rest
        } else if toks.len() != 3 {
            None
        } else if !(hex_decode_spec(toks[0]) is Some && hex_decode_spec(toks[0]).unwrap().len()
            == digest_len_spec(t)) {
            None
        } else if !(toks[1].len() >= 1 && all_dec_digits(toks[1]) && dec_val(toks[1])
            <= u64::MAX) {
            None
        } else {
            match rest {
                Some(rs) => Some(
                    seq![(toks[2], dec_val(toks[1]), hex_decode_spec(toks[0]).unwrap())] + rs,
                ),
                None => None,
            }
        }
    }
}

/// The rows of a checksum table field value.
pub open spec fn table_spec(value: Seq<char>, t: ChecksumType) -> Option<
    Seq<(Seq<char>, int, Seq<u8>)>,
> {
    rows_spec(split_spec(value, '\n'), t)
}

/// Parse a checksum table field value into its rows.
///
/// Succeeds exactly when every non-blank line is a well-formed
/// `{hex} {size} {path}` row for algorithm `t`.
pub fn parse_checksum_table(value: &str, t: ChecksumType) -> (r: Result<
    Vec<ReleaseFileEntry>,
    DebianError,
>)
    ensures
        r is Ok <==> table_spec(value@, t) is Some,
        r matches Ok(v) ==> {
            let rows = table_spec(value@, t).unwrap();
            &&& v@.len() == rows.len()
            &&& forall|i: int| 0 <= i < rows.len() ==> (#[trigger] v@[i]).model() == rows[i]
            &&& forall|i: int|
                0 <= i < rows.len() ==> (#[trigger] v@[i]).digest.algorithm == t && v@[i].digest.wf()
        },
        r matches Err(e) ==> (e matches DebianError::ReleaseMissingSize || e
            matches DebianError::ReleaseMissingPath || e matches DebianError::PathWithSpaces(_) || e
            matches DebianError::BadHex(_) || e matches DebianError::ControlFieldIntParse(_)),
{
    let lines = split_char(value, '\n');
    let ghost all_lines: Seq<Seq<char>> = lines.deep_view();
    let mut out: Vec<ReleaseFileEntry> = Vec::new();
    let n = lines.len();
    let mut i: usize = 0;
    proof {
        assert(all_lines.subrange(0, n as int) =~= all_lines);
    }
    while i < n
        invariant
            n == lines@.len(),
            all_lines == lines.deep_view(),
            all_lines == split_spec(value@, '\n'),
            0 <= i <= n,
            rows_spec(all_lines.subrange(i as int, n as int), t) is Some ==> {
                &&& table_spec(value@, t) is Some
                &&& {
                    let rows = table_spec(value@, t).unwrap();
                    let rest = rows_spec(all_lines.subrange(i as int, n as int), t).unwrap();
                    &&& rows =~= entry_models(&out) + rest
                }
            },
            rows_spec(all_lines.subrange(i as int, n as int), t) is None ==> table_spec(value@, t)
                is None,
            forall|k: int| 0 <= k < out@.len() ==> (#[trigger] out@[k]).digest.algorithm == t
                && out@[k].digest.wf(),
        decreases n - i,
    {
        let ghost rem = all_lines.subrange(i as int, n as int);
        proof {
            assert(rem.len() > 0);
            assert(rem[0] == lines@[i as int]@);
            assert(rem.subrange(1, rem.len() as int) =~= all_lines.subrange(i + 1, n as int));
        }
        let line: &String = &lines[i];
        let toks = tokenize_ws(line.as_str());
        proof {
            assert(toks.deep_view() == tokens_spec(rem[0]));
        }
        if toks.len() == 0 {
        } else if toks.len() == 1 {
            return Err(DebianError::ReleaseMissingSize);
        } else if toks.len() == 2 {
            return Err(DebianError::ReleaseMissingPath);
        } else if toks.len() > 3 {
            return Err(DebianError::PathWithSpaces(line.clone()));
        } else {
            proof {
                assert(toks.deep_view()[0] == toks@[0]@);
                assert(toks.deep_view()[1] == toks@[1]@);
                assert(toks.deep_view()[2] == toks@[2]@);
            }
            let digest_bytes = match hex_decode(toks[0].as_str()) {
                Some(b) => b,
                None => {
                    return Err(DebianError::BadHex(toks[0].clone()));
                },
            };
            if digest_bytes.len() != t.digest_byte_len() {
                return Err(DebianError::BadHex(toks[0].clone()));
            }
            let size = match parse_u64(toks[1].as_str()) {
                Some(s) => s,
                None => {
                    return Err(DebianError::ControlFieldIntParse(String::from_str(
                        t.field_name(),
                    )));
                },
            };
            let ghost old_models = entry_models(&out);
            let entry = ReleaseFileEntry {
                path: toks[2].clone(),
                size,
                digest: ContentDigest { algorithm: t, digest: digest_bytes },
            };
            let ghost em = entry.model();
            out.push(entry);
            proof {
                assert(entry_models(&out) =~= old_models.push(em));
                assert(old_models.push(em) =~= old_models + seq![em]);
            }
        }
        i += 1;
    }
    proof {
        assert(all_lines.subrange(n as int, n as int) =~= Seq::<Seq<char>>::empty());
        assert(entry_models(&out) + Seq::<(Seq<char>, int, Seq<u8>)>::empty() =~= entry_models(
            &out,
        ));
    }
    Ok(out)
}

/// The models of the parsed rows.
pub open spec fn entry_models(v: &Vec<ReleaseFileEntry>) -> Seq<(Seq<char>, int, Seq<u8>)> {
    Seq::new(v@.len(), |i: int| v@[i].model())
}

// ---------------------------------------------------------------------------
// Formatting a checksum table
// ---------------------------------------------------------------------------

/// A table row rendered as `{hex} {size} {path}`.
pub open spec fn format_row_spec(path: Seq<char>, size: int, digest: Seq<u8>) -> Seq<char> {
    hex_encode_spec(digest) + seq![' '] + dec_str(size) + seq![' '] + path
}

/// Render checksum table entries as newline-separated rows.
pub fn format_checksum_table(entries: &Vec<ReleaseFileEntry>) -> (r: String)
    ensures
        r@ == join_nl(Seq::new(entries@.len(), |i: int| format_row_spec(
            entries@[i].path@,
            entries@[i].size as int,
            entries@[i].digest.digest@,
        ))),
{
    let mut parts: Vec<String> = Vec::new();
    let n = entries.len();
    let mut i: usize = 0;
    while i < n
        invariant
            n == entries@.len(),
            0 <= i <= n,
            parts@.len() == i,
            forall|k: int| 0 <= k < i ==> (#[trigger] parts@[k])@ == format_row_spec(
                entries@[k].path@,
                entries@[k].size as int,
                entries@[k].digest.digest@,
            ),
        decreases n - i,
    {
        let e = &entries[i];
        let row = hex_encode(&e.digest.digest)
            .concat(" ")
            .concat(u64_to_dec(e.size).as_str())
            .concat(" ")
            .concat(e.path.as_str());
        proof {
            reveal_strlit(" ");
            assert(" "@ =~= seq![' ']);
            assert(row@ =~= format_row_spec(
                entries@[i as int].path@,
                entries@[i as int].size as int,
                entries@[i as int].digest.digest@,
            ));
        }
        parts.push(row);
        i += 1;
    }
    let r = join_lines(&parts, 0, parts.len());
    proof {
        assert(parts.deep_view().subrange(0, parts@.len() as int) =~= parts.deep_view());
        assert(parts.deep_view() =~= Seq::new(entries@.len(), |i: int| format_row_spec(
            entries@[i].path@,
            entries@[i].size as int,
            entries@[i].digest.digest@,
        )));
    }
    r
}

// ---------------------------------------------------------------------------
// The round trip between parsing and formatting a checksum table
// ---------------------------------------------------------------------------

/// A row that a checksum table can carry: a non-empty path free of
/// whitespace and newlines, a size that fits, and a digest of the
/// algorithm's width.
pub open spec fn row_wf(row: (Seq<char>, int, Seq<u8>), t: ChecksumType) -> bool {
    &&& row.0.len() >= 1
    &&& forall|j: int|
        0 <= j < row.0.len() ==> !crate::strutil::is_ws_char(#[trigger] row.0[j]) && row.0[j]
            != '\n'
    &&& 0 <= row.1 <= u64::MAX
    &&& row.2.len() == digest_len_spec(t)
}

/// The formatted line of a row splits back into its three columns.
proof fn lemma_format_row_tokens(row: (Seq<char>, int, Seq<u8>), t: ChecksumType)
    requires
        row_wf(row, t),
    ensures
        tokens_spec(format_row_spec(row.0, row.1, row.2)) == seq![
            hex_encode_spec(row.2),
            dec_str(row.1),
            row.0,
        ],
{
    let hex = hex_encode_spec(row.2);
    let dec = dec_str(row.1);
    crate::checksum::lemma_hex_encode_chars(row.2);
    crate::checksum::lemma_hex_encode_len(row.2);
    crate::strutil::lemma_dec_str(row.1);
    assert forall|j: int| 0 <= j < hex.len() implies !crate::strutil::is_ws_char(
        #[trigger] hex[j],
    ) by {
        assert(crate::checksum::is_hex_digit(hex[j]));
    }
    assert forall|j: int| 0 <= j < dec.len() implies !crate::strutil::is_ws_char(
        #[trigger] dec[j],
    ) by {
        assert(crate::strutil::is_dec_digit(dec[j]));
    }
    let tail2 = seq![' '] + row.0;
    let tail1 = seq![' '] + dec + tail2;
    assert(tokens_spec(row.0 + Seq::<char>::empty()) == seq![row.0] + tokens_spec(
        Seq::<char>::empty(),
    )) by {
        crate::strutil::lemma_tokens_prepend_token(row.0, Seq::empty());
    }
    assert(row.0 + Seq::<char>::empty() =~= row.0);
    assert(tokens_spec(row.0) =~= seq![row.0]);
    assert(tail2.subrange(1, tail2.len() as int) =~= row.0);
    assert(tokens_spec(tail2) == tokens_spec(row.0));
    assert(tokens_spec(dec + tail2) == seq![dec] + tokens_spec(tail2)) by {
        crate::strutil::lemma_tokens_prepend_token(dec, tail2);
    }
    assert(tail1.subrange(1, tail1.len() as int) =~= dec + tail2);
    assert(tokens_spec(tail1) == tokens_spec(dec + tail2));
    assert(tokens_spec(hex + tail1) == seq![hex] + tokens_spec(tail1)) by {
        crate::strutil::lemma_tokens_prepend_token(hex, tail1);
    }
    assert(format_row_spec(row.0, row.1, row.2) =~= hex + tail1);
    assert(seq![hex] + (seq![dec] + seq![row.0]) =~= seq![hex, dec, row.0]);
}

/// The formatted lines of well-formed rows parse back into the rows.
proof fn lemma_rows_of_formatted_lines(rows: Seq<(Seq<char>, int, Seq<u8>)>, t: ChecksumType)
    requires
        forall|i: int| 0 <= i < rows.len() ==> row_wf(#[trigger] rows[i], t),
    ensures
        rows_spec(Seq::new(rows.len(), |i: int| format_row_spec(rows[i].0, rows[i].1, rows[i].2)), t)
            == Some(rows),
    decreases rows.len(),
{
    let lines = Seq::new(rows.len(), |i: int| format_row_spec(rows[i].0, rows[i].1, rows[i].2));
    if rows.len() == 0 {
        assert(rows_spec(lines, t) == Some(Seq::<(Seq<char>, int, Seq<u8>)>::empty()));
        assert(rows =~= Seq::<(Seq<char>, int, Seq<u8>)>::empty());
    } else {
        let row = rows[0];
        lemma_format_row_tokens(row, t);
        crate::checksum::lemma_hex_round_trip(row.2);
        crate::checksum::lemma_hex_encode_len(row.2);
        crate::strutil::lemma_dec_str(row.1);
        let rest_rows = rows.subrange(1, rows.len() as int);
        lemma_rows_of_formatted_lines(rest_rows, t);
        assert(lines[0] == format_row_spec(row.0, row.1, row.2));
        assert(lines.subrange(1, lines.len() as int) =~= Seq::new(
            rest_rows.len(),
            |i: int| format_row_spec(rest_rows[i].0, rest_rows[i].1, rest_rows[i].2),
        ));
        let toks = tokens_spec(lines[0]);
        assert(toks.len() == 3);
        assert(toks[0] == hex_encode_spec(row.2) && toks[1] == dec_str(row.1) && toks[2] == row.0);
        assert(hex_decode_spec(toks[0]) == Some(row.2));
        assert(rows_spec(lines, t) matches Some(rs) && rs =~= rows);
    }
}

/// Every row a checksum table parse produces is well-formed: its path
/// is a non-empty token free of whitespace and newlines, its size fits,
/// and its digest has the algorithm's width.
pub proof fn lemma_rows_spec_wf(lines: Seq<Seq<char>>, t: ChecksumType)
    requires
        rows_spec(lines, t) is Some,
        forall|k: int, j: int|
            0 <= k < lines.len() && 0 <= j < lines[k].len() ==> #[trigger] lines[k][j] != '\n',
    ensures
        forall|i: int|
            0 <= i < rows_spec(lines, t).unwrap().len() ==> row_wf(
                #[trigger] rows_spec(lines, t).unwrap()[i],
                t,
            ),
    decreases lines.len(),
{
    if lines.len() > 0 {
        let rest_lines = lines.subrange(1, lines.len() as int);
        assert forall|k: int, j: int|
            0 <= k < rest_lines.len() && 0 <= j < rest_lines[k].len() implies
            #[trigger] rest_lines[k][j] != '\n' by {
            assert(rest_lines[k] == lines[k + 1]);
        }
        lemma_rows_spec_wf(rest_lines, t);
        let toks = tokens_spec(lines[0]);
        let rows = rows_spec(lines, t).unwrap();
        let rest_rows = rows_spec(rest_lines, t).unwrap();
        if toks.len() == 0 {
            assert(rows == rest_rows);
        } else {
            crate::strutil::lemma_tokens_spec_props(lines[0]);
            crate::strutil::lemma_dec_val_nonneg(toks[1]);
            let row0 = (toks[2], dec_val(toks[1]), hex_decode_spec(toks[0]).unwrap());
            assert(row_wf(row0, t)) by {
                assert forall|j: int| 0 <= j < toks[2].len() implies !crate::strutil::is_ws_char(
                    #[trigger] toks[2][j],
                ) && toks[2][j] != '\n' by {
                    let x = choose|x: int|
                        0 <= x < lines[0].len() && #[trigger] lines[0][x] == toks[2][j];
                }
            }
            assert(rows =~= seq![row0] + rest_rows);
            assert forall|i: int| 0 <= i < rows.len() implies row_wf(#[trigger] rows[i], t) by {
                if i > 0 {
                    assert(rows[i] == rest_rows[i - 1]);
                }
            }
        }
    }
}

/// Parsing, reformatting and parsing again a checksum table yields the
/// same rows: the round trip preserves every `(path, size, digest)`
/// triple, in order.
pub proof fn lemma_parse_format_round_trip(value: Seq<char>, t: ChecksumType)
    requires
        table_spec(value, t) is Some,
    ensures
        ({
            let rows = table_spec(value, t).unwrap();
            table_spec(
                join_nl(
                    Seq::new(rows.len(), |i: int| format_row_spec(rows[i].0, rows[i].1, rows[i].2)),
                ),
                t,
            ) == Some(rows)
        }),
{
    let lines = split_spec(value, '\n');
    crate::strutil::lemma_split_spec(value, '\n');
    lemma_rows_spec_wf(lines, t);
    lemma_index_table_round_trip(table_spec(value, t).unwrap(), t);
}

/// Parsing the rendering of a well-formed checksum table yields the
/// table back: the round trip preserves every `(path, size, digest)`
/// row, in order.
pub proof fn lemma_index_table_round_trip(rows: Seq<(Seq<char>, int, Seq<u8>)>, t: ChecksumType)
    requires
        forall|i: int| 0 <= i < rows.len() ==> row_wf(#[trigger] rows[i], t),
    ensures
        table_spec(
            join_nl(
                Seq::new(rows.len(), |i: int| format_row_spec(rows[i].0, rows[i].1, rows[i].2)),
            ),
            t,
        ) == Some(rows),
{
    let lines = Seq::new(rows.len(), |i: int| format_row_spec(rows[i].0, rows[i].1, rows[i].2));
    lemma_rows_of_formatted_lines(rows, t);
    if rows.len() == 0 {
        assert(join_nl(lines) =~= Seq::<char>::empty());
        let sl = split_spec(Seq::<char>::empty(), '\n');
        assert(sl =~= seq![Seq::<char>::empty()]);
        assert(sl.len() == 1 && sl[0] == Seq::<char>::empty());
        assert(tokens_spec(Seq::<char>::empty()).len() == 0);
        assert(sl.subrange(1, sl.len() as int) =~= Seq::<Seq<char>>::empty());
        assert(rows_spec(Seq::<Seq<char>>::empty(), t) == Some(
            Seq::<(Seq<char>, int, Seq<u8>)>::empty(),
        ));
        assert(rows_spec(sl, t) == Some(Seq::<(Seq<char>, int, Seq<u8>)>::empty()));
        assert(rows =~= Seq::<(Seq<char>, int, Seq<u8>)>::empty());
    } else {
        assert forall|k: int, j: int|
            0 <= k < lines.len() && 0 <= j < lines[k].len() implies #[trigger] lines[k][j]
            != '\n' by {
            let row = rows[k];
            lemma_format_row_tokens(row, t);
            crate::checksum::lemma_hex_encode_chars(row.2);
            crate::checksum::lemma_hex_encode_len(row.2);
            crate::strutil::lemma_dec_str(row.1);
            let hex = hex_encode_spec(row.2);
            let dec = dec_str(row.1);
            assert(lines[k] == hex + seq![' '] + dec + seq![' '] + row.0);
            if j < hex.len() {
                assert(lines[k][j] == hex[j]);
                assert(crate::checksum::is_hex_digit(hex[j]));
            } else if j == hex.len() {
                assert(lines[k][j] == ' ');
            } else if j < hex.len() + 1 + dec.len() {
                assert(lines[k][j] == dec[j - hex.len() - 1]);
                assert(crate::strutil::is_dec_digit(dec[j - hex.len() - 1]));
            } else if j == hex.len() + 1 + dec.len() {
                assert(lines[k][j] == ' ');
            } else {
                assert(lines[k][j] == row.0[j - hex.len() - dec.len() - 2]);
            }
        }
        crate::strutil::lemma_split_join(lines);
    }
}

// ---------------------------------------------------------------------------
// The Release file
// ---------------------------------------------------------------------------

/// A parsed `[In]Release` manifest: one control paragraph, plus the
/// signature block when it came from a cleartext-signed `InRelease`.
#[derive(Clone, Debug)]
pub struct ReleaseFile {
    pub paragraph: ControlParagraph,
    /// The retained OpenPGP signature block, for a downstream verifier.
    pub signature: Option<String>,
}

impl ReleaseFile {
    /// Parse an unsigned `Release` file: exactly one control paragraph.
    pub fn from_string(s: &str) -> (r: Result<ReleaseFile, DebianError>)
        ensures
            r is Ok <==> (parse_control_spec(s@) is Some && parse_control_spec(s@).unwrap().len()
                == 1),
            r matches Ok(rf) ==> rf.paragraph@ == parse_control_spec(s@).unwrap()[0]
                && rf.signature is None,
            r matches Err(e) ==> e matches DebianError::ControlParseError(_),
    {
        let paras = parse_paragraphs(s)?;
        if paras.len() != 1 {
            return Err(
                DebianError::ControlParseError(
                    String::from_str("control file holds ").concat(
                        usize_to_dec(paras.len()).as_str(),
                    ).concat(" paragraphs; expected 1"),
                ),
            );
        }
        let mut paras = paras;
        let ghost pv = paras.deep_view();
        let p = paras.pop().unwrap();
        proof {
            assert(p@ == pv[0]);
        }
        Ok(ReleaseFile { paragraph: p, signature: None })
    }

    /// The value of a paragraph field.
    pub fn field(&self, name: &str) -> (r: Option<String>)
        ensures
            r is Some <==> lookup_field(self.paragraph@, name@) is Some,
            r matches Some(v) ==> v@ == lookup_field(self.paragraph@, name@).unwrap(),
    {
        self.paragraph.field(name)
    }

    /// Whether `Acquire-By-Hash` is present, and whether it is `yes`.
    pub fn acquire_by_hash(&self) -> (r: Option<bool>)
        ensures
            r is Some <==> lookup_field(self.paragraph@, "Acquire-By-Hash"@) is Some,
            r matches Some(b) ==> b == (lookup_field(self.paragraph@, "Acquire-By-Hash"@).unwrap()
                == "yes"@),
    {
        match self.field("Acquire-By-Hash") {
            Some(v) => Some(str_eq(v.as_str(), "yes")),
            None => None,
        }
    }

    /// The `Suite` field.
    pub fn suite(&self) -> (r: Option<String>)
        ensures
            r is Some <==> lookup_field(self.paragraph@, "Suite"@) is Some,
            r matches Some(v) ==> v@ == lookup_field(self.paragraph@, "Suite"@).unwrap(),
    {
        self.field("Suite")
    }

    /// The `Codename` field.
    pub fn codename(&self) -> (r: Option<String>)
        ensures
            r is Some <==> lookup_field(self.paragraph@, "Codename"@) is Some,
            r matches Some(v) ==> v@ == lookup_field(self.paragraph@, "Codename"@).unwrap(),
    {
        self.field("Codename")
    }

    /// The components named by the `Components` field.
    pub fn components(&self) -> (r: Option<Vec<String>>)
        ensures
            r is Some <==> lookup_field(self.paragraph@, "Components"@) is Some,
            r matches Some(v) ==> v.deep_view() == tokens_spec(
                lookup_field(self.paragraph@, "Components"@).unwrap(),
            ),
    {
        match self.field("Components") {
            Some(v) => Some(tokenize_ws(v.as_str())),
            None => None,
        }
    }

    /// The architectures named by the `Architectures` field.
    pub fn architectures(&self) -> (r: Option<Vec<String>>)
        ensures
            r is Some <==> lookup_field(self.paragraph@, "Architectures"@) is Some,
            r matches Some(v) ==> v.deep_view() == tokens_spec(
                lookup_field(self.paragraph@, "Architectures"@).unwrap(),
            ),
    {
        match self.field("Architectures") {
            Some(v) => Some(tokenize_ws(v.as_str())),
            None => None,
        }
    }

    /// The `Date` field as seconds since the epoch.
    pub fn date(&self) -> (r: Result<i64, DebianError>)
        ensures
            r is Ok <==> (lookup_field(self.paragraph@, "Date"@) matches Some(v) && rfc2822_time(v)
                is Some),
            r matches Ok(t) ==> Some(t) == rfc2822_time(
                lookup_field(self.paragraph@, "Date"@).unwrap(),
            ),
            r matches Err(e) ==> (e matches DebianError::ControlRequiredFieldMissing(_) || e
                matches DebianError::DateParse(_)),
    {
        self.date_field("Date")
    }

    /// The `Valid-Until` field as seconds since the epoch.
    pub fn valid_until(&self) -> (r: Result<i64, DebianError>)
        ensures
            r is Ok <==> (lookup_field(self.paragraph@, "Valid-Until"@) matches Some(v)
                && rfc2822_time(v) is Some),
            r matches Ok(t) ==> Some(t) == rfc2822_time(
                lookup_field(self.paragraph@, "Valid-Until"@).unwrap(),
            ),
            r matches Err(e) ==> (e matches DebianError::ControlRequiredFieldMissing(_) || e
                matches DebianError::DateParse(_)),
    {
        self.date_field("Valid-Until")
    }

    fn date_field(&self, name: &str) -> (r: Result<i64, DebianError>)
        ensures
            r is Ok <==> (lookup_field(self.paragraph@, name@) matches Some(v) && rfc2822_time(v)
                is Some),
            r matches Ok(t) ==> Some(t) == rfc2822_time(
                lookup_field(self.paragraph@, name@).unwrap(),
            ),
            r matches Err(e) ==> (e matches DebianError::ControlRequiredFieldMissing(_) || e
                matches DebianError::DateParse(_)),
    {
        match self.field(name) {
            Some(v) => {
                match parse_date_raw(v.as_str()) {
                    Some(t) => Ok(t),
                    None => Err(DebianError::DateParse(v)),
                }
            },
            None => Err(DebianError::ControlRequiredFieldMissing(String::from_str(name))),
        }
    }

    /// The rows of the checksum table for algorithm `t`; empty when the
    /// Release file has no such table.
    pub fn release_entries(&self, t: ChecksumType) -> (r: Result<Vec<ReleaseFileEntry>, DebianError>)
        ensures
            lookup_field(self.paragraph@, checksum_name_spec(t)) is None ==> (r matches Ok(v)
                && v@.len() == 0),
            lookup_field(self.paragraph@, checksum_name_spec(t)) matches Some(value) ==> {
                &&& (r is Ok <==> table_spec(value, t) is Some)
                &&& (r matches Ok(v) ==> {
                    let rows = table_spec(value, t).unwrap();
                    &&& v@.len() == rows.len()
                    &&& forall|i: int| 0 <= i < rows.len() ==> (#[trigger] v@[i]).model() == rows[i]
                    &&& forall|i: int|
                        0 <= i < rows.len() ==> (#[trigger] v@[i]).digest.algorithm == t
                            && v@[i].digest.wf()
                })
            },
            r matches Err(e) ==> (e matches DebianError::ReleaseMissingSize || e
                matches DebianError::ReleaseMissingPath || e matches DebianError::PathWithSpaces(
                _,
            ) || e matches DebianError::BadHex(_) || e matches DebianError::ControlFieldIntParse(
                _,
            )),
    {
        match self.field(t.field_name()) {
            Some(value) => parse_checksum_table(value.as_str(), t),
            None => Ok(Vec::new()),
        }
    }
}

// ---------------------------------------------------------------------------
// Classification of index entries
// ---------------------------------------------------------------------------

/// A checksum table row recognized as a `Packages` index.
#[derive(Clone, Debug)]
pub struct PackagesFileEntry {
    pub entry: ReleaseFileEntry,
    pub component: String,
    pub architecture: String,
    pub is_installer: bool,
    pub compression: Compression,
}

/// A checksum table row recognized as a `Sources` index.
#[derive(Clone, Debug)]
pub struct SourcesFileEntry {
    pub entry: ReleaseFileEntry,
    pub component: String,
    pub compression: Compression,
}

/// A checksum table row recognized as a `Contents` index.
#[derive(Clone, Debug)]
pub struct ContentsFileEntry {
    pub entry: ReleaseFileEntry,
    /// Absent for a distribution-level `Contents-{arch}` file.
    pub component: Option<String>,
    pub architecture: String,
    pub is_installer: bool,
    pub compression: Compression,
}

/// A checksum table row recognized as a `Translation` index.
#[derive(Clone, Debug)]
pub struct TranslationFileEntry {
    pub entry: ReleaseFileEntry,
    pub component: String,
    pub language: String,
    pub compression: Compression,
}

impl PackagesFileEntry {
    /// A copy carrying the same row and role.
    pub fn duplicate(&self) -> (r: PackagesFileEntry)
        ensures
            r.entry.path@ == self.entry.path@,
            r.entry.size == self.entry.size,
            r.entry.digest.algorithm == self.entry.digest.algorithm,
            r.entry.digest.digest@ == self.entry.digest.digest@,
            r.component@ == self.component@,
            r.architecture@ == self.architecture@,
            r.is_installer == self.is_installer,
            r.compression == self.compression,
    {
        PackagesFileEntry {
            entry: self.entry.duplicate(),
            component: self.component.clone(),
            architecture: self.architecture.clone(),
            is_installer: self.is_installer,
            compression: self.compression,
        }
    }
}

impl SourcesFileEntry {
    /// A copy carrying the same row and role.
    pub fn duplicate(&self) -> (r: SourcesFileEntry)
        ensures
            r.entry.path@ == self.entry.path@,
            r.entry.size == self.entry.size,
            r.entry.digest.algorithm == self.entry.digest.algorithm,
            r.entry.digest.digest@ == self.entry.digest.digest@,
            r.component@ == self.component@,
            r.compression == self.compression,
    {
        SourcesFileEntry {
            entry: self.entry.duplicate(),
            component: self.component.clone(),
            compression: self.compression,
        }
    }
}

impl ContentsFileEntry {
    /// A copy carrying the same row and role.
    pub fn duplicate(&self) -> (r: ContentsFileEntry)
        ensures
            r.entry.path@ == self.entry.path@,
            r.entry.size == self.entry.size,
            r.entry.digest.algorithm == self.entry.digest.algorithm,
            r.entry.digest.digest@ == self.entry.digest.digest@,
            (r.component is Some <==> self.component is Some),
            r.component matches Some(c) ==> c@ == self.component.unwrap()@,
            r.architecture@ == self.architecture@,
            r.is_installer == self.is_installer,
            r.compression == self.compression,
    {
        let component = match &self.component {
            Some(c) => Some(c.clone()),
            None => None,
        };
        ContentsFileEntry {
            entry: self.entry.duplicate(),
            component,
            architecture: self.architecture.clone(),
            is_installer: self.is_installer,
            compression: self.compression,
        }
    }
}

/// A checksum table row annotated with its recognized role.
#[derive(Clone, Debug)]
pub enum ClassifiedReleaseFileEntry {
    Packages(PackagesFileEntry),
    Sources(SourcesFileEntry),
    Contents(ContentsFileEntry),
    Translation(TranslationFileEntry),
    /// A `*.diff/Index` row.
    DiffIndex(ReleaseFileEntry),
    /// A row whose path matches no known pattern.
    Other(ReleaseFileEntry),
}

/// Two rows carry the same path, size and digest.
pub open spec fn same_entry(a: &ReleaseFileEntry, b: &ReleaseFileEntry) -> bool {
    a.path@ == b.path@ && a.size == b.size && a.digest.algorithm == b.digest.algorithm
        && a.digest.digest@ == b.digest.digest@
}

/// The path with its compression suffix removed, and the format the
/// suffix named.
pub open spec fn strip_compression_spec(path: Seq<char>) -> (Seq<char>, Compression) {
    if ends_with_spec(path, ".xz"@) {
        (path.subrange(0, path.len() - 3), Compression::Xz)
    } else if ends_with_spec(path, ".gz"@) {
        (path.subrange(0, path.len() - 3), Compression::Gzip)
    } else if ends_with_spec(path, ".bz2"@) {
        (path.subrange(0, path.len() - 4), Compression::Bzip2)
    } else if ends_with_spec(path, ".lzma"@) {
        (path.subrange(0, path.len() - 5), Compression::Lzma)
    } else if ends_with_spec(path, ".zst"@) {
        (path.subrange(0, path.len() - 4), Compression::Zstd)
    } else {
        (path, Compression::Plain)
    }
}

fn strip_compression(path: &str) -> (r: (String, Compression))
    ensures
        (r.0@, r.1) == strip_compression_spec(path@),
{
    let n = path.unicode_len();
    proof {
        reveal_strlit(".xz");
        reveal_strlit(".gz");
        reveal_strlit(".bz2");
        reveal_strlit(".lzma");
        reveal_strlit(".zst");
    }
    if ends_with(path, ".xz") {
        (substr_copy(path, 0, n - 3), Compression::Xz)
    } else if ends_with(path, ".gz") {
        (substr_copy(path, 0, n - 3), Compression::Gzip)
    } else if ends_with(path, ".bz2") {
        (substr_copy(path, 0, n - 4), Compression::Bzip2)
    } else if ends_with(path, ".lzma") {
        (substr_copy(path, 0, n - 5), Compression::Lzma)
    } else if ends_with(path, ".zst") {
        (substr_copy(path, 0, n - 4), Compression::Zstd)
    } else {
        (String::from_str(path), Compression::Plain)
    }
}

/// `{component}/binary-{arch}/Packages[.c]`, or with a
/// `debian-installer/` segment for installer indices.
pub open spec fn packages_class_spec(path: Seq<char>) -> Option<
    (Seq<char>, Seq<char>, bool, Compression),
> {
    let sc = strip_compression_spec(path);
    let segs = split_spec(sc.0, '/');
    if segs.len() == 3 && starts_with_spec(segs[1], "binary-"@) && segs[2] == "Packages"@ {
        Some((segs[0], segs[1].subrange(7, segs[1].len() as int), false, sc.1))
    } else if segs.len() == 4 && segs[1] == "debian-installer"@ && starts_with_spec(
        segs[2],
        "binary-"@,
    ) && segs[3] == "Packages"@ {
        Some((segs[0], segs[2].subrange(7, segs[2].len() as int), true, sc.1))
    } else {
        None
    }
}

/// `{component}/source/Sources[.c]`.
pub open spec fn sources_class_spec(path: Seq<char>) -> Option<(Seq<char>, Compression)> {
    let sc = strip_compression_spec(path);
    let segs = split_spec(sc.0, '/');
    if segs.len() == 3 && segs[1] == "source"@ && segs[2] == "Sources"@ {
        Some((segs[0], sc.1))
    } else {
        None
    }
}

/// `Contents-{arch}` or `Contents-udeb-{arch}` as a path leaf.
pub open spec fn contents_leaf_spec(name: Seq<char>) -> Option<(Seq<char>, bool)> {
    if starts_with_spec(name, "Contents-udeb-"@) {
        Some((name.subrange(14, name.len() as int), true))
    } else if starts_with_spec(name, "Contents-"@) {
        Some((name.subrange(9, name.len() as int), false))
    } else {
        None
    }
}

/// A `Contents` index at the distribution level or under a component.
pub open spec fn contents_class_spec(path: Seq<char>) -> Option<
    (Option<Seq<char>>, Seq<char>, bool, Compression),
> {
    let sc = strip_compression_spec(path);
    let segs = split_spec(sc.0, '/');
    if segs.len() == 1 {
        match contents_leaf_spec(segs[0]) {
            Some(l) => Some((None, l.0, l.1, sc.1)),
            None => None,
        }
    } else if segs.len() == 2 {
        match contents_leaf_spec(segs[1]) {
            Some(l) => Some((Some(segs[0]), l.0, l.1, sc.1)),
            None => None,
        }
    } else {
        None
    }
}

/// `{component}/i18n/Translation-{lang}[.c]`.
pub open spec fn translation_class_spec(path: Seq<char>) -> Option<
    (Seq<char>, Seq<char>, Compression),
> {
    let sc = strip_compression_spec(path);
    let segs = split_spec(sc.0, '/');
    if segs.len() == 3 && segs[1] == "i18n"@ && starts_with_spec(segs[2], "Translation-"@) {
        Some((segs[0], segs[2].subrange(12, segs[2].len() as int), sc.1))
    } else {
        None
    }
}

/// A `{...}.diff/Index` row.
pub open spec fn diff_index_spec(path: Seq<char>) -> bool {
    let segs = split_spec(path, '/');
    segs.len() >= 2 && segs[segs.len() - 1] == "Index"@ && ends_with_spec(
        segs[segs.len() - 2],
        ".diff"@,
    )
}

/// Which classification a path receives, in priority order.
pub open spec fn classification_of(path: Seq<char>) -> int {
    if diff_index_spec(path) {
        4
    } else if packages_class_spec(path) is Some {
        0
    } else if sources_class_spec(path) is Some {
        1
    } else if contents_class_spec(path) is Some {
        2
    } else if translation_class_spec(path) is Some {
        3
    } else {
        5
    }
}

/// Classify a checksum table row by its path pattern.
pub fn classify_entry(entry: ReleaseFileEntry) -> (r: ClassifiedReleaseFileEntry)
    ensures
        r matches ClassifiedReleaseFileEntry::Packages(p) ==> {
            &&& classification_of(entry.path@) == 0
            &&& same_entry(&p.entry, &entry)
            &&& Some((p.component@, p.architecture@, p.is_installer, p.compression))
                == packages_class_spec(entry.path@)
        },
        r matches ClassifiedReleaseFileEntry::Sources(s) ==> {
            &&& classification_of(entry.path@) == 1
            &&& same_entry(&s.entry, &entry)
            &&& Some((s.component@, s.compression)) == sources_class_spec(entry.path@)
        },
        r matches ClassifiedReleaseFileEntry::Contents(c) ==> {
            &&& classification_of(entry.path@) == 2
            &&& same_entry(&c.entry, &entry)
            &&& {
                let l = contents_class_spec(entry.path@).unwrap();
                &&& contents_class_spec(entry.path@) is Some
                &&& (c.component is Some <==> l.0 is Some)
                &&& (c.component matches Some(cc) ==> cc@ == l.0.unwrap())
                &&& c.architecture@ == l.1
                &&& c.is_installer == l.2
                &&& c.compression == l.3
            }
        },
        r matches ClassifiedReleaseFileEntry::Translation(tr) ==> {
            &&& classification_of(entry.path@) == 3
            &&& same_entry(&tr.entry, &entry)
            &&& Some((tr.component@, tr.language@, tr.compression)) == translation_class_spec(
                entry.path@,
            )
        },
        r matches ClassifiedReleaseFileEntry::DiffIndex(e) ==> classification_of(entry.path@) == 4
            && same_entry(&e, &entry),
        r matches ClassifiedReleaseFileEntry::Other(e) ==> classification_of(entry.path@) == 5
            && same_entry(&e, &entry),
{
    proof {
        reveal_strlit("binary-");
        reveal_strlit("debian-installer");
        reveal_strlit("Packages");
        reveal_strlit("source");
        reveal_strlit("Sources");
        reveal_strlit("Contents-udeb-");
        reveal_strlit("Contents-");
        reveal_strlit("i18n");
        reveal_strlit("Translation-");
        reveal_strlit("Index");
        reveal_strlit(".diff");
    }
    // diff/Index rows first: their paths carry no compression suffix and
    // must not fall through to the other patterns.
    let raw_segs = split_char(entry.path.as_str(), '/');
    let nraw = raw_segs.len();
    proof {
        assert(raw_segs.deep_view().len() >= 1) by {
            crate::strutil::lemma_split_spec(entry.path@, '/');
        }
        assert(raw_segs.deep_view()[nraw - 1] == raw_segs@[nraw - 1]@);
        if nraw >= 2 {
            assert(raw_segs.deep_view()[nraw - 2] == raw_segs@[nraw - 2]@);
        }
    }
    if nraw >= 2 && str_eq(raw_segs[nraw - 1].as_str(), "Index") && ends_with(
        raw_segs[nraw - 2].as_str(),
        ".diff",
    ) {
        return ClassifiedReleaseFileEntry::DiffIndex(entry);
    }
    let sc = strip_compression(entry.path.as_str());
    let base = sc.0;
    let compression = sc.1;
    let segs = split_char(base.as_str(), '/');
    let ns = segs.len();
    proof {
        assert(segs.deep_view() == split_spec(strip_compression_spec(entry.path@).0, '/'));
        assert forall|k: int| 0 <= k < ns implies segs.deep_view()[k] == segs@[k]@ by {}
    }
    if ns == 3 && starts_with(segs[1].as_str(), "binary-") && str_eq(
        segs[2].as_str(),
        "Packages",
    ) {
        let arch = substr_copy(segs[1].as_str(), 7, segs[1].as_str().unicode_len());
        let component = segs[0].clone();
        return ClassifiedReleaseFileEntry::Packages(PackagesFileEntry {
            entry,
            component,
            architecture: arch,
            is_installer: false,
            compression,
        });
    }
    if ns == 4 && str_eq(segs[1].as_str(), "debian-installer") && starts_with(
        segs[2].as_str(),
        "binary-",
    ) && str_eq(segs[3].as_str(), "Packages") {
        let arch = substr_copy(segs[2].as_str(), 7, segs[2].as_str().unicode_len());
        let component = segs[0].clone();
        return ClassifiedReleaseFileEntry::Packages(PackagesFileEntry {
            entry,
            component,
            architecture: arch,
            is_installer: true,
            compression,
        });
    }
    if ns == 3 && str_eq(segs[1].as_str(), "source") && str_eq(segs[2].as_str(), "Sources") {
        let component = segs[0].clone();
        return ClassifiedReleaseFileEntry::Sources(SourcesFileEntry {
            entry,
            component,
            compression,
        });
    }
    if ns == 1 || ns == 2 {
        let leaf_idx = ns - 1;
        let leaf = &segs[leaf_idx];
        let ln = leaf.as_str().unicode_len();
        if starts_with(leaf.as_str(), "Contents-udeb-") {
            let arch = substr_copy(leaf.as_str(), 14, ln);
            let component = if ns == 2 {
                Some(segs[0].clone())
            } else {
                None
            };
            return ClassifiedReleaseFileEntry::Contents(ContentsFileEntry {
                entry,
                component,
                architecture: arch,
                is_installer: true,
                compression,
            });
        }
        if starts_with(leaf.as_str(), "Contents-") {
            let arch = substr_copy(leaf.as_str(), 9, ln);
            let component = if ns == 2 {
                Some(segs[0].clone())
            } else {
                None
            };
            return ClassifiedReleaseFileEntry::Contents(ContentsFileEntry {
                entry,
                component,
                architecture: arch,
                is_installer: false,
                compression,
            });
        }
    }
    if ns == 3 && str_eq(segs[1].as_str(), "i18n") && starts_with(
        segs[2].as_str(),
        "Translation-",
    ) {
        let lang = substr_copy(segs[2].as_str(), 12, segs[2].as_str().unicode_len());
        let component = segs[0].clone();
        return ClassifiedReleaseFileEntry::Translation(TranslationFileEntry {
            entry,
            component,
            language: lang,
            compression,
        });
    }
    ClassifiedReleaseFileEntry::Other(entry)
}

// ---------------------------------------------------------------------------
// OpenPGP cleartext envelopes
// ---------------------------------------------------------------------------

/// Split `lines` at the first line equal to `marker`: the lines before
/// it, and the lines after it. `None` when no line matches.
pub open spec fn split_at_marker(
    lines: Seq<Seq<char>>,
    marker: Seq<char>,
) -> Option<(Seq<Seq<char>>, Seq<Seq<char>>)>
    decreases lines.len(),
{
    if lines.len() == 0 {
        None
    } else if lines[0] == marker {
        Some((Seq::empty(), lines.subrange(1, lines.len() as int)))
    } else {
        match split_at_marker(lines.subrange(1, lines.len() as int), marker) {
            Some(p) => Some((seq![lines[0]] + p.0, p.1)),
            None => None,
        }
    }
}

pub proof fn lemma_split_at_marker_found(lines: Seq<Seq<char>>, marker: Seq<char>, k: int)
    requires
        0 <= k < lines.len(),
        lines[k] == marker,
        forall|j: int| 0 <= j < k ==> lines[j] != marker,
    ensures
        split_at_marker(lines, marker) == Some(
            (lines.subrange(0, k), lines.subrange(k + 1, lines.len() as int)),
        ),
    decreases k,
{
    if k == 0 {
        assert(lines.subrange(0, 0) =~= Seq::<Seq<char>>::empty());
    } else {
        let t = lines.subrange(1, lines.len() as int);
        assert(t[k - 1] == lines[k]);
        assert forall|j: int| 0 <= j < k - 1 implies t[j] != marker by {
            assert(t[j] == lines[j + 1]);
        }
        lemma_split_at_marker_found(t, marker, k - 1);
        assert(seq![lines[0]] + t.subrange(0, k - 1) =~= lines.subrange(0, k));
        assert(t.subrange(k, t.len() as int) =~= lines.subrange(k + 1, lines.len() as int));
    }
}

pub proof fn lemma_split_at_marker_none(lines: Seq<Seq<char>>, marker: Seq<char>)
    requires
        forall|j: int| 0 <= j < lines.len() ==> lines[j] != marker,
    ensures
        split_at_marker(lines, marker) is None,
    decreases lines.len(),
{
    if lines.len() > 0 {
        let t = lines.subrange(1, lines.len() as int);
        assert forall|j: int| 0 <= j < t.len() implies t[j] != marker by {
            assert(t[j] == lines[j + 1]);
        }
        lemma_split_at_marker_none(t, marker);
    }
}

/// A message line with cleartext dash-escaping undone.
pub open spec fn unescape_spec(line: Seq<char>) -> Seq<char> {
    if starts_with_spec(line, "- "@) {
        line.subrange(2, line.len() as int)
    } else {
        line
    }
}

/// The message text and signature block of a cleartext-signed file:
/// the begin marker, armor headers up to a blank line, dash-escaped
/// message lines up to the signature marker, and the signature lines up
/// to the end marker.
pub open spec fn armored_payload(s: Seq<char>) -> Option<(Seq<char>, Seq<char>)> {
    let lines = split_spec(s, '\n');
    if lines.len() == 0 || lines[0] != "-----BEGIN PGP SIGNED MESSAGE-----"@ {
        None
    } else {
        match split_at_marker(lines.subrange(1, lines.len() as int), Seq::empty()) {
            None => None,
            Some(hd) => match split_at_marker(hd.1, "-----BEGIN PGP SIGNATURE-----"@) {
                None => None,
                Some(ms) => match split_at_marker(ms.1, "-----END PGP SIGNATURE-----"@) {
                    None => None,
                    Some(sg) => Some(
                        (
                            join_nl(Seq::new(ms.0.len(), |i: int| unescape_spec(ms.0[i]))),
                            join_nl(sg.0),
                        ),
                    ),
                },
            },
        }
    }
}

/// First index at or after `from` whose line equals `marker`, or the
/// number of lines when none does.
fn find_line(lines: &Vec<String>, from: usize, marker: &str) -> (r: usize)
    requires
        from <= lines@.len(),
    ensures
        from <= r <= lines@.len(),
        r < lines@.len() ==> lines.deep_view()[r as int] == marker@,
        forall|j: int| from <= j < r ==> lines.deep_view()[j] != marker@,
{
    let n = lines.len();
    let mut i: usize = from;
    while i < n
        invariant
            from <= i <= n,
            n == lines@.len(),
            forall|j: int| from <= j < i ==> lines.deep_view()[j] != marker@,
        decreases n - i,
    {
        proof {
            assert(lines.deep_view()[i as int] == lines@[i as int]@);
        }
        if str_eq(lines[i].as_str(), marker) {
            return i;
        }
        i += 1;
    }
    n
}

impl ReleaseFile {
    /// Parse a cleartext-signed `InRelease` file: strip the armor, retain
    /// the signature block, and parse the message as a Release paragraph.
    pub fn from_armored_string(s: &str) -> (r: Result<ReleaseFile, DebianError>)
        ensures
            r is Ok <==> (armored_payload(s@) matches Some(pair) && parse_control_spec(pair.0)
                is Some && parse_control_spec(pair.0).unwrap().len() == 1),
            r matches Ok(rf) ==> {
                let pair = armored_payload(s@).unwrap();
                &&& rf.paragraph@ == parse_control_spec(pair.0).unwrap()[0]
                &&& rf.signature matches Some(sig) && sig@ == pair.1
            },
            r matches Err(e) ==> (e matches DebianError::Pgp(_) || e
                matches DebianError::ControlParseError(_)),
            (armored_payload(s@) is None && r is Err) ==> r.unwrap_err()
                matches DebianError::Pgp(_),
    {
        proof {
            reveal_strlit("");
            reveal_strlit("-----BEGIN PGP SIGNED MESSAGE-----");
            reveal_strlit("-----BEGIN PGP SIGNATURE-----");
            reveal_strlit("-----END PGP SIGNATURE-----");
            reveal_strlit("- ");
            assert(""@ =~= Seq::<char>::empty());
        }
        let lines = split_char(s, '\n');
        let ghost lm = lines.deep_view();
        let n = lines.len();
        proof {
            crate::strutil::lemma_split_spec(s@, '\n');
            assert(lm[0] == lines@[0]@);
        }
        if !str_eq(lines[0].as_str(), "-----BEGIN PGP SIGNED MESSAGE-----") {
            return Err(DebianError::Pgp(String::from_str("missing cleartext begin marker")));
        }
        let ghost sub1 = lm.subrange(1, n as int);
        let jb = find_line(&lines, 1, "");
        if jb >= n {
            proof {
                assert forall|j: int| 0 <= j < sub1.len() implies sub1[j] != Seq::<char>::empty()
                    by {
                    assert(sub1[j] == lm[j + 1]);
                }
                lemma_split_at_marker_none(sub1, Seq::empty());
            }
            return Err(DebianError::Pgp(String::from_str("missing armor header terminator")));
        }
        proof {
            assert(sub1[jb - 1] == lm[jb as int]);
            assert forall|j: int| 0 <= j < jb - 1 implies sub1[j] != Seq::<char>::empty() by {
                assert(sub1[j] == lm[j + 1]);
            }
            lemma_split_at_marker_found(sub1, Seq::empty(), jb - 1);
            assert(sub1.subrange(jb as int, sub1.len() as int) =~= lm.subrange(
                jb + 1,
                n as int,
            ));
        }
        let ghost rest1 = lm.subrange(jb + 1, n as int);
        let k1 = find_line(&lines, jb + 1, "-----BEGIN PGP SIGNATURE-----");
        if k1 >= n {
            proof {
                assert forall|j: int| 0 <= j < rest1.len() implies rest1[j]
                    != "-----BEGIN PGP SIGNATURE-----"@ by {
                    assert(rest1[j] == lm[j + jb + 1]);
                }
                lemma_split_at_marker_none(rest1, "-----BEGIN PGP SIGNATURE-----"@);
            }
            return Err(DebianError::Pgp(String::from_str("missing signature begin marker")));
        }
        proof {
            assert(rest1[k1 - jb - 1] == lm[k1 as int]);
            assert forall|j: int| 0 <= j < k1 - jb - 1 implies rest1[j]
                != "-----BEGIN PGP SIGNATURE-----"@ by {
                assert(rest1[j] == lm[j + jb + 1]);
            }
            lemma_split_at_marker_found(rest1, "-----BEGIN PGP SIGNATURE-----"@, k1 - jb - 1);
            assert(rest1.subrange(0, k1 - jb - 1) =~= lm.subrange(jb + 1, k1 as int));
            assert(rest1.subrange(k1 - jb, rest1.len() as int) =~= lm.subrange(
                k1 + 1,
                n as int,
            ));
        }
        let ghost rest2 = lm.subrange(k1 + 1, n as int);
        let k2 = find_line(&lines, k1 + 1, "-----END PGP SIGNATURE-----");
        if k2 >= n {
            proof {
                assert forall|j: int| 0 <= j < rest2.len() implies rest2[j]
                    != "-----END PGP SIGNATURE-----"@ by {
                    assert(rest2[j] == lm[j + k1 + 1]);
                }
                lemma_split_at_marker_none(rest2, "-----END PGP SIGNATURE-----"@);
            }
            return Err(DebianError::Pgp(String::from_str("missing signature end marker")));
        }
        proof {
            assert(rest2[k2 - k1 - 1] == lm[k2 as int]);
            assert forall|j: int| 0 <= j < k2 - k1 - 1 implies rest2[j]
                != "-----END PGP SIGNATURE-----"@ by {
                assert(rest2[j] == lm[j + k1 + 1]);
            }
            lemma_split_at_marker_found(rest2, "-----END PGP SIGNATURE-----"@, k2 - k1 - 1);
            assert(rest2.subrange(0, k2 - k1 - 1) =~= lm.subrange(k1 + 1, k2 as int));
        }
        let ghost msg_lines = lm.subrange(jb + 1, k1 as int);
        let ghost unescaped = Seq::new(msg_lines.len(), |i: int| unescape_spec(msg_lines[i]));
        let mut msgv: Vec<String> = Vec::new();
        let mut i: usize = jb + 1;
        proof {
            assert(msgv.deep_view() =~= unescaped.subrange(0, 0));
        }
        while i < k1
            invariant
                jb + 1 <= i <= k1 <= n,
                n == lines@.len(),
                lm == lines.deep_view(),
                msg_lines == lm.subrange(jb + 1, k1 as int),
                unescaped == Seq::new(msg_lines.len(), |t: int| unescape_spec(msg_lines[t])),
                msgv@.len() == i - (jb + 1),
                msgv.deep_view() == unescaped.subrange(0, i - (jb + 1)),
            decreases k1 - i,
        {
            proof {
                assert(lm[i as int] == lines@[i as int]@);
                assert(msg_lines[i - (jb + 1)] == lm[i as int]);
                reveal_strlit("- ");
            }
            let line: &String = &lines[i];
            let ln = line.as_str().unicode_len();
            let unesc = if starts_with(line.as_str(), "- ") {
                substr_copy(line.as_str(), 2, ln)
            } else {
                line.clone()
            };
            proof {
                assert(unesc@ == unescape_spec(msg_lines[i - (jb + 1)]));
            }
            let ghost old_dv = msgv.deep_view();
            let ghost unesc_view = unesc@;
            msgv.push(unesc);
            proof {
                let newlen = i - (jb + 1) + 1;
                assert(msgv@.len() == newlen);
                assert forall|t: int| 0 <= t < newlen implies msgv.deep_view()[t]
                    == unescaped[t] by {
                    if t < newlen - 1 {
                        assert(msgv@[t] == msgv@.subrange(0, newlen - 1)[t]);
                        assert(msgv.deep_view()[t] == old_dv[t]);
                        assert(old_dv[t] == unescaped.subrange(0, newlen - 1)[t]);
                    } else {
                        assert(msgv.deep_view()[t] == unesc_view);
                        assert(unescaped[t] == unescape_spec(msg_lines[t]));
                    }
                }
                assert(msgv.deep_view() =~= unescaped.subrange(0, newlen));
            }
            i += 1;
        }
        proof {
            assert(unescaped.subrange(0, unescaped.len() as int) =~= unescaped);
        }
        let msg = join_lines(&msgv, 0, msgv.len());
        proof {
            assert(msgv.deep_view().subrange(0, msgv.deep_view().len() as int) =~= msgv
                .deep_view());
            assert(msg@ == join_nl(unescaped));
        }
        let sig = join_lines(&lines, k1 + 1, k2);
        let paras = match parse_paragraphs(msg.as_str()) {
            Ok(p) => p,
            Err(e) => {
                return Err(e);
            },
        };
        if paras.len() != 1 {
            return Err(
                DebianError::ControlParseError(
                    String::from_str("control file holds ").concat(
                        usize_to_dec(paras.len()).as_str(),
                    ).concat(" paragraphs; expected 1"),
                ),
            );
        }
        let mut paras = paras;
        let ghost pv = paras.deep_view();
        let p = paras.pop().unwrap();
        proof {
            assert(p@ == pv[0]);
        }
        Ok(ReleaseFile { paragraph: p, signature: Some(sig) })
    }
}

// ---------------------------------------------------------------------------
// Date parsing (relies on the mailparse crate)
// ---------------------------------------------------------------------------

pub uninterp spec fn rfc2822_time(s: Seq<char>) -> Option<i64>;

/// Relies on mailparse::dateparse: the parsed timestamp is a function of
/// the input string alone, and parsing fails exactly on malformed dates.
#[verifier::external_body]
fn parse_date_raw(s: &str) -> (r: Option<i64>)
    ensures
        r == rfc2822_time(s@),
{
    mailparse::dateparse(s).ok()
}

} // verus!
