//! The map catalog: rendered game maps, per-map metadata, and the
//! catalog registry. Reading configuration and map files from disk and
//! decoding TOML or JSON text happens outside the library; the decoded
//! fields arrive here as plain values (the `Raw*` types) and every
//! decision taken on them is verified.

use vstd::prelude::*;
use crate::error::{Error, ErrorKind};
use crate::registry;
use crate::text;
use crate::version::Version;

verus! {

/// The width of every map row. Shorter rows in a map file are filled up
/// with solid blocks on the right; longer rows are cropped.
pub const WIDTH: usize = 28;

/// Possible loader formats for a map file.
#[derive(Debug)]
pub enum MapFormat {
    /// JSON, the JavaScript object notation: the only supported format.
    JSON,
}

/// A scalar field as it was found in a decoded configuration or map
/// file: absent, a text value, or present with some other shape.
pub enum RawField {
    /// The field is not present.
    Missing,
    /// The field is a text value.
    Text(String),
    /// The field is present but not a text value.
    Other,
}

/// The `features` field of a decoded map file.
pub enum RawFeatures {
    /// No `features` field.
    Missing,
    /// A single text value.
    Single(String),
    /// A list; `None` elements stand for non-text entries.
    Many(Vec<Option<String>>),
    /// Present with some other shape (neither text nor a list).
    Other,
}

/// The `author` field of a decoded catalog entry: a single value (`None`
/// when it is not text) or a list (`None` elements for non-text entries).
pub enum RawAuthor {
    /// No `author` field.
    Missing,
    /// A single scalar; `None` when it is not a text value.
    Single(Option<String>),
    /// A list of scalars; `None` elements for non-text entries.
    Many(Vec<Option<String>>),
}

/// A decoded map file: the `name` and `features` fields, and the grid
/// rows. A row is `None` when it is not a list; a cell is `None` when it
/// is missing or not an integer.
pub struct RawMapFile {
    /// The `name` field.
    pub name: RawField,
    /// The `features` field.
    pub features: RawFeatures,
    /// The `map` field: `None` when missing or not a list.
    pub rows: Option<Vec<Option<Vec<Option<i64>>>>>,
}

/// What a rendered map is: its name, an optional feature list, and a
/// grid of rows, each exactly [`WIDTH`] cells wide.
pub struct GameMapModel {
    /// The map's name.
    pub name: Seq<char>,
    /// The optional feature list.
    pub features: Option<Seq<Seq<char>>>,
    /// The grid; every row has length [`WIDTH`].
    pub grid: Seq<Seq<u8>>,
}

/// A map ready to send to a client: a name, an optional feature list and
/// a grid of cells. Cell values encode blocks (empty space, solid block,
/// water, traps, platforms, berries, enemies and so on); the server core
/// never interprets them, it only delivers them.
#[derive(Debug)]
pub struct GameMap {
    p_name: String,
    p_features: Option<Vec<String>>,
    p_map: Vec<Vec<u8>>,
}

impl View for GameMap {
    type V = GameMapModel;

    closed spec fn view(&self) -> GameMapModel {
        GameMapModel {
            name: self.p_name@,
            features: match self.p_features {
                Some(fs) => Some(Seq::new(fs@.len(), |i: int| fs@[i]@)),
                None => None,
            },
            grid: Seq::new(self.p_map@.len(), |i: int| self.p_map@[i]@),
        }
    }
}

/// A well-formed map: every grid row is exactly [`WIDTH`] wide.
pub open spec fn map_wf(m: GameMapModel) -> bool {
    forall|i: int| 0 <= i < m.grid.len() ==> (#[trigger] m.grid[i]).len() == WIDTH as int
}

/// The value of one grid cell: an integer cell is truncated to a byte
/// (two's complement), a missing or non-integer cell is a solid block.
pub open spec fn cell_value(c: Option<i64>) -> u8 {
    match c {
        Some(x) => ((((x as int) % 256) + 256) % 256) as u8,
        None => 1,
    }
}

/// The row a decoded cell list produces: exactly [`WIDTH`] cells.
pub open spec fn row_value(cells: Seq<Option<i64>>) -> Seq<u8> {
    Seq::new(WIDTH as nat, |j: int| if 0 <= j < cells.len() {
        cell_value(cells[j])
    } else {
        1u8
    })
}

/// Whether any element of the decoded feature list is not text.
pub open spec fn features_bad(f: RawFeatures) -> bool {
    f matches RawFeatures::Many(v) && exists|i: int| 0 <= i < v@.len() && v@[i] is None
}

/// The feature list before the `none` normalisation.
pub open spec fn features_listed(f: RawFeatures) -> Option<Seq<Seq<char>>> {
    match f {
        RawFeatures::Missing => None,
        RawFeatures::Other => None,
        RawFeatures::Single(s) => Some(seq![s@]),
        RawFeatures::Many(v) => Some(Seq::new(v@.len(), |i: int| v@[i]->Some_0@)),
    }
}

/// The feature list a decoded `features` field produces: a lone entry
/// `none` means no features at all.
pub open spec fn features_value(f: RawFeatures) -> Option<Seq<Seq<char>>> {
    match features_listed(f) {
        Some(fs) => if fs.len() == 1 && fs[0] == "none"@ {
            None
        } else {
            Some(fs)
        },
        None => None,
    }
}

/// Whether the decoded `map` field is unusable: missing, not a list, or
/// holding a row that is not a list.
pub open spec fn rows_bad(rows: Option<Vec<Option<Vec<Option<i64>>>>>) -> bool {
    match rows {
        None => true,
        Some(rs) => exists|i: int| 0 <= i < rs@.len() && rs@[i] is None,
    }
}

/// The grid a decoded `map` field produces (when it is usable).
pub open spec fn grid_value(rows: Option<Vec<Option<Vec<Option<i64>>>>>) -> Seq<Seq<u8>> {
    Seq::new(rows->Some_0@.len(), |i: int| row_value(rows->Some_0@[i]->Some_0@))
}

impl GameMap {
    /// Builds a map from the decoded fields of a map file, exactly as the
    /// loader reads them: the name must be text; a feature list may not
    /// hold non-text entries; the grid must be a list of lists, each row
    /// filled or cropped to [`WIDTH`] cells, non-integer cells becoming
    /// solid blocks.
    pub fn from_raw(raw: RawMapFile) -> (r: Result<GameMap, Error>)
        ensures
            !(raw.name is Text) ==> (r matches Err(e) && e.spec_kind() matches
                ErrorKind::FieldNotExists(f) && f@ == "name"@),
            raw.name is Text && features_bad(raw.features) ==> (r matches Err(e)
                && e.spec_kind() matches ErrorKind::FieldNotExists(f) && f@
                == "features is not string"@),
            raw.name is Text && !features_bad(raw.features) && rows_bad(raw.rows) ==> (r matches
                Err(e) && e.spec_kind() matches ErrorKind::FieldNotExists(f) && f@ == "map"@),
            raw.name matches RawField::Text(n) ==> (!features_bad(raw.features) && !rows_bad(
                raw.rows,
            ) ==> (r matches Ok(m) && m@ == (GameMapModel {
                name: n@,
                features: features_value(raw.features),
                grid: grid_value(raw.rows),
            }) && map_wf(m@))),
    {
        let name = match raw.name {
            RawField::Text(n) => n,
            _ => {
                return Err(Error::new_field_not_exists(String::from_str("name")));
            },
        };
        let features = match build_features(raw.features) {
            Ok(fs) => fs,
            Err(e) => {
                return Err(e);
            },
        };
        let grid = match build_grid(raw.rows) {
            Ok(g) => g,
            Err(e) => {
                return Err(e);
            },
        };
        let m = GameMap { p_name: name, p_features: features, p_map: grid };
        proof {
            let fv = features_value(raw.features);
            if m@.features is Some {
                assert(m@.features->Some_0 =~= fv->Some_0);
            }
            assert(m@.grid =~= grid_value(raw.rows));
            assert forall|i: int| 0 <= i < m@.grid.len() implies (#[trigger] m@.grid[i]).len()
                == WIDTH as int by {
                assert(m@.grid[i] == grid_value(raw.rows)[i]);
            }
        }
        Ok(m)
    }

    /// The name of the map.
    pub fn name(&self) -> (r: String)
        ensures
            r@ == self@.name,
    {
        self.p_name.clone()
    }

    /// The map's size as `width x rows`, e.g. `28x12`.
    pub fn size(&self) -> (r: String)
        ensures
            r@ == text::dec_seq(WIDTH as nat) + seq!['x'] + text::dec_seq(self@.grid.len()),
    {
        let mut s = text::u64_to_string(WIDTH as u64);
        s.append("x");
        let rows = text::u64_to_string(self.p_map.len() as u64);
        s.append(rows.as_str());
        proof {
            reveal_strlit("x");
            assert(s@ =~= text::dec_seq(WIDTH as nat) + seq!['x'] + text::dec_seq(
                self@.grid.len(),
            ));
        }
        s
    }

    /// Whether the map lists `feature` in its feature list.
    pub fn feature(&self, feature: &String) -> (r: bool)
        ensures
            r == (self@.features matches Some(fs) && fs.contains(feature@)),
    {
        match &self.p_features {
            Some(t) => {
                let n = t.len();
                let mut i: usize = 0;
                while i < n
                    invariant
                        0 <= i <= n,
                        n == t@.len(),
                        self@.features matches Some(fs) && fs.len() == n && (forall|k: int|
                            0 <= k < n ==> fs[k] == t@[k]@),
                        forall|j: int| 0 <= j < i ==> t@[j]@ != feature@,
                    decreases n - i,
                {
                    if text::str_eq(t[i].as_str(), feature.as_str()) {
                        proof {
                            assert(self@.features->Some_0[i as int] == feature@);
                        }
                        return true;
                    }
                    i = i + 1;
                }
                proof {
                    assert forall|k: int|
                        0 <= k < self@.features->Some_0.len() implies self@.features->Some_0[k]
                        != feature@ by {
                        assert(t@[k]@ != feature@);
                    }
                }
                false
            },
            None => false,
        }
    }

    /// The feature list joined with `, `; empty when there are no
    /// features.
    pub fn feature_list(&self) -> (r: String)
        ensures
            self@.features matches Some(fs) ==> r@ == join_sep(fs, ", "@),
            self@.features is None ==> r@ == Seq::<char>::empty(),
    {
        match &self.p_features {
            Some(t) => {
                let ghost fs = self@.features->Some_0;
                let n = t.len();
                let mut out = String::new();
                let mut i: usize = 0;
                proof {
                    assert(fs.take(0) =~= Seq::<Seq<char>>::empty());
                }
                while i < n
                    invariant
                        0 <= i <= n,
                        n == t@.len(),
                        n == fs.len(),
                        forall|j: int| 0 <= j < n ==> t@[j]@ == fs[j],
                        out@ == join_sep(fs.take(i as int), ", "@),
                    decreases n - i,
                {
                    if i > 0 {
                        out.append(", ");
                    }
                    out.append(t[i].as_str());
                    proof {
                        reveal_strlit(", ");
                        lemma_join_sep_take(fs, ", "@, i as int);
                        if i > 0 {
                            assert(out@ =~= join_sep(fs.take(i + 1), ", "@));
                        } else {
                            assert(out@ =~= join_sep(fs.take(1), ", "@));
                        }
                    }
                    i = i + 1;
                }
                proof {
                    assert(fs.take(n as int) =~= fs);
                }
                out
            },
            None => String::new(),
        }
    }

    /// Renders the map as the JSON payload sent to clients: an object
    /// holding the name, the feature list (or `null`) and the grid.
    pub fn to_json(&self) -> (r: String)
        ensures
            r@ == json_of(self@),
    {
        let mut out = String::new();
        out.append("{\"name\":");
        append_quoted(&mut out, self.p_name.as_str());
        out.append(",\"features\":");
        append_features_json(&mut out, &self.p_features);
        out.append(",\"map\":");
        append_grid_json(&mut out, &self.p_map);
        out.append("}");
        proof {
            assert(out@ =~= json_of(self@));
        }
        out
    }

    /// An owned copy of the map.
    pub fn duplicate(&self) -> (r: GameMap)
        ensures
            r@ == self@,
    {
        let name = self.p_name.clone();
        let features: Option<Vec<String>> = match &self.p_features {
            Some(v) => {
                let n = v.len();
                let mut nv: Vec<String> = Vec::new();
                let mut i: usize = 0;
                while i < n
                    invariant
                        0 <= i <= n,
                        n == v@.len(),
                        nv@.len() == i,
                        forall|j: int| 0 <= j < i ==> nv@[j]@ == v@[j]@,
                    decreases n - i,
                {
                    nv.push(v[i].clone());
                    i = i + 1;
                }
                Some(nv)
            },
            None => None,
        };
        let n = self.p_map.len();
        let mut grid: Vec<Vec<u8>> = Vec::new();
        let mut i: usize = 0;
        while i < n
            invariant
                0 <= i <= n,
                n == self.p_map@.len(),
                grid@.len() == i,
                forall|j: int| 0 <= j < i ==> grid@[j]@ == self.p_map@[j]@,
            decreases n - i,
        {
            grid.push(copy_row(&self.p_map[i]));
            i = i + 1;
        }
        let r = GameMap { p_name: name, p_features: features, p_map: grid };
        proof {
            if r@.features is Some {
                assert(r@.features->Some_0 =~= self@.features->Some_0);
            }
            assert(r@.grid =~= self@.grid);
        }
        r
    }
}

/// An owned copy of one row of cells.
fn copy_row(r: &Vec<u8>) -> (c: Vec<u8>)
    ensures
        c@ == r@,
{
    let n = r.len();
    let mut c: Vec<u8> = Vec::new();
    let mut i: usize = 0;
    while i < n
        invariant
            0 <= i <= n,
            n == r@.len(),
            c@.len() == i,
            forall|j: int| 0 <= j < i ==> c@[j] == r@[j],
        decreases n - i,
    {
        c.push(r[i]);
        i = i + 1;
    }
    proof {
        assert(c@ =~= r@);
    }
    c
}

/// `parts` joined with the separator `sep`.
pub open spec fn join_sep(parts: Seq<Seq<char>>, sep: Seq<char>) -> Seq<char>
    decreases parts.len(),
{
    if parts.len() == 0 {
        Seq::<char>::empty()
    } else if parts.len() == 1 {
        parts[0]
    } else {
        join_sep(parts.drop_last(), sep) + sep + parts.last()
    }
}

/// Joining one more part appends a separator (except before the first
/// part) and the part.
pub proof fn lemma_join_sep_take(parts: Seq<Seq<char>>, sep: Seq<char>, i: int)
    requires
        0 <= i < parts.len(),
    ensures
        i == 0 ==> join_sep(parts.take(1), sep) == parts[0],
        i > 0 ==> join_sep(parts.take(i + 1), sep) == join_sep(parts.take(i), sep) + sep
            + parts[i],
{
    let t = parts.take(i + 1);
    if i == 0 {
        assert(t.len() == 1);
        assert(t[0] == parts[0]);
    } else {
        assert(t.drop_last() =~= parts.take(i));
        assert(t.last() == parts[i]);
    }
}

/// Builds the feature list from the decoded `features` field.
fn build_features(f: RawFeatures) -> (r: Result<Option<Vec<String>>, Error>)
    ensures
        features_bad(f) ==> (r matches Err(e) && e.spec_kind() matches ErrorKind::FieldNotExists(
            msg,
        ) && msg@ == "features is not string"@),
        !features_bad(f) ==> (r matches Ok(fs) && (match fs {
            Some(v) => features_value(f) matches Some(m) && v@.len() == m.len() && (forall|i: int|
                0 <= i < m.len() ==> v@[i]@ == m[i]),
            None => features_value(f) is None,
        })),
{
    proof {
        reveal_strlit("none");
    }
    let listed: Option<Vec<String>> = match f {
        RawFeatures::Missing => None,
        RawFeatures::Other => None,
        RawFeatures::Single(s) => {
            let mut v: Vec<String> = Vec::new();
            v.push(s);
            Some(v)
        },
        RawFeatures::Many(items) => {
            let n = items.len();
            let mut v: Vec<String> = Vec::new();
            let mut i: usize = 0;
            while i < n
                invariant
                    0 <= i <= n,
                    n == items@.len(),
                    f == RawFeatures::Many(items),
                    forall|j: int| 0 <= j < i ==> items@[j] is Some,
                    v@.len() == i,
                    forall|j: int| 0 <= j < i ==> v@[j]@ == items@[j]->Some_0@,
                decreases n - i,
            {
                match &items[i] {
                    Some(s) => {
                        v.push(s.clone());
                    },
                    None => {
                        proof {
                            assert(features_bad(f)) by {
                                assert(f->Many_0@[i as int] is None);
                            }
                        }
                        return Err(Error::new_field_not_exists(
                            String::from_str("features is not string"),
                        ));
                    },
                }
                i = i + 1;
            }
            Some(v)
        },
    };
    let r = match listed {
        Some(v) => {
            if v.len() == 1 && text::str_eq(v[0].as_str(), "none") {
                None
            } else {
                Some(v)
            }
        },
        None => None,
    };
    Ok(r)
}

/// Builds the grid from the decoded `map` field.
fn build_grid(rows: Option<Vec<Option<Vec<Option<i64>>>>>) -> (r: Result<Vec<Vec<u8>>, Error>)
    ensures
        rows_bad(rows) ==> (r matches Err(e) && e.spec_kind() matches ErrorKind::FieldNotExists(
            msg,
        ) && msg@ == "map"@),
        !rows_bad(rows) ==> (r matches Ok(g) && g@.len() == grid_value(rows).len() && (forall|
            i: int,
        |
            0 <= i < g@.len() ==> g@[i]@ == grid_value(rows)[i])),
{
    let rs = match rows {
        Some(rs) => rs,
        None => {
            return Err(Error::new_field_not_exists(String::from_str("map")));
        },
    };
    let n = rs.len();
    let mut g: Vec<Vec<u8>> = Vec::new();
    let mut i: usize = 0;
    while i < n
        invariant
            0 <= i <= n,
            n == rs@.len(),
            rows == Some(rs),
            forall|j: int| 0 <= j < i ==> rs@[j] is Some,
            g@.len() == i,
            forall|j: int| 0 <= j < i ==> g@[j]@ == row_value(rs@[j]->Some_0@),
        decreases n - i,
    {
        match &rs[i] {
            Some(cells) => {
                let row = build_row(cells);
                g.push(row);
            },
            None => {
                proof {
                    assert(rows_bad(rows)) by {
                        assert(rows->Some_0@[i as int] is None);
                    }
                }
                return Err(Error::new_field_not_exists(String::from_str("map")));
            },
        }
        i = i + 1;
    }
    proof {
        assert(!rows_bad(rows));
        assert(g@.len() == grid_value(rows).len());
        assert(forall|j: int| 0 <= j < g@.len() ==> g@[j]@ == grid_value(rows)[j]);
    }
    Ok(g)
}

/// Builds one grid row of exactly [`WIDTH`] cells from a decoded cell
/// list.
fn build_row(cells: &Vec<Option<i64>>) -> (r: Vec<u8>)
    ensures
        r@ == row_value(cells@),
{
    let mut row: Vec<u8> = Vec::new();
    let mut j: usize = 0;
    while j < WIDTH
        invariant
            0 <= j <= WIDTH,
            row@.len() == j,
            forall|k: int| 0 <= k < j ==> row@[k] == row_value(cells@)[k],
        decreases WIDTH - j,
    {
        let b: u8 = if j < cells.len() {
            match cells[j] {
                Some(x) => truncate_byte(x),
                None => 1,
            }
        } else {
            1
        };
        row.push(b);
        j = j + 1;
    }
    proof {
        assert(row@ =~= row_value(cells@));
    }
    row
}

/// Truncates an integer to a byte, as a two's-complement `as` cast does.
fn truncate_byte(x: i64) -> (r: u8)
    ensures
        r == ((x % 256) + 256) % 256,
{
    let m: i64 = x % 256;
    let n: i64 = if m < 0 {
        m + 256
    } else {
        m
    };
    n as u8
}

/// A JSON string literal: `s` escaped, between double quotes.
pub open spec fn quoted(s: Seq<char>) -> Seq<char> {
    seq!['"'] + text::esc_seq(s) + seq!['"']
}

/// The JSON rendering of the feature list: `null` when there is none,
/// otherwise a list of JSON strings.
pub open spec fn features_json(f: Option<Seq<Seq<char>>>) -> Seq<char> {
    match f {
        None => "null"@,
        Some(fs) => seq!['['] + join_sep(Seq::new(fs.len(), |i: int| quoted(fs[i])), seq![','])
            + seq![']'],
    }
}

/// The JSON rendering of one grid row: a list of cell numbers.
pub open spec fn row_json(r: Seq<u8>) -> Seq<char> {
    seq!['['] + join_sep(Seq::new(r.len(), |i: int| text::dec_seq(r[i] as nat)), seq![','])
        + seq![']']
}

/// The JSON rendering of the grid: a list of rows.
pub open spec fn grid_json(g: Seq<Seq<u8>>) -> Seq<char> {
    seq!['['] + join_sep(Seq::new(g.len(), |i: int| row_json(g[i])), seq![',']) + seq![']']
}

/// The JSON rendering of a whole map: an object with the name, the
/// feature list (or `null`) and the grid.
pub open spec fn json_of(m: GameMapModel) -> Seq<char> {
    "{\"name\":"@ + quoted(m.name) + ",\"features\":"@ + features_json(m.features) + ",\"map\":"@
        + grid_json(m.grid) + "}"@
}

/// Appends `s` as a JSON string literal.
fn append_quoted(out: &mut String, s: &str)
    ensures
        final(out)@ == old(out)@ + quoted(s@),
{
    out.append("\"");
    text::append_escaped(out, s);
    out.append("\"");
    proof {
        reveal_strlit("\"");
        assert(out@ =~= old(out)@ + quoted(s@));
    }
}

/// Appends the JSON rendering of one grid row.
fn append_row_json(out: &mut String, r: &Vec<u8>)
    ensures
        final(out)@ == old(out)@ + row_json(r@),
{
    let ghost parts = Seq::new(r@.len(), |i: int| text::dec_seq(r@[i] as nat));
    out.append("[");
    let ghost start = out@;
    let n = r.len();
    let mut i: usize = 0;
    proof {
        assert(parts.take(0) =~= Seq::<Seq<char>>::empty());
    }
    while i < n
        invariant
            0 <= i <= n,
            n == r@.len(),
            parts == Seq::new(r@.len(), |k: int| text::dec_seq(r@[k] as nat)),
            out@ == start + join_sep(parts.take(i as int), seq![',']),
        decreases n - i,
    {
        if i > 0 {
            out.append(",");
        }
        let num = text::u64_to_string(r[i] as u64);
        out.append(num.as_str());
        proof {
            reveal_strlit(",");
            lemma_join_sep_take(parts, seq![','], i as int);
            assert(out@ =~= start + join_sep(parts.take(i + 1), seq![',']));
        }
        i = i + 1;
    }
    out.append("]");
    proof {
        reveal_strlit("[");
        reveal_strlit("]");
        assert(parts.take(n as int) =~= parts);
        assert(out@ =~= old(out)@ + row_json(r@));
    }
}

/// Appends the JSON rendering of the grid.
fn append_grid_json(out: &mut String, g: &Vec<Vec<u8>>)
    ensures
        final(out)@ == old(out)@ + grid_json(Seq::new(g@.len(), |i: int| g@[i]@)),
{
    let ghost rows = Seq::new(g@.len(), |i: int| g@[i]@);
    let ghost parts = Seq::new(rows.len(), |i: int| row_json(rows[i]));
    out.append("[");
    let ghost start = out@;
    let n = g.len();
    let mut i: usize = 0;
    proof {
        assert(parts.take(0) =~= Seq::<Seq<char>>::empty());
    }
    while i < n
        invariant
            0 <= i <= n,
            n == g@.len(),
            rows == Seq::new(g@.len(), |k: int| g@[k]@),
            parts == Seq::new(rows.len(), |k: int| row_json(rows[k])),
            out@ == start + join_sep(parts.take(i as int), seq![',']),
        decreases n - i,
    {
        if i > 0 {
            out.append(",");
        }
        append_row_json(out, &g[i]);
        proof {
            reveal_strlit(",");
            lemma_join_sep_take(parts, seq![','], i as int);
            assert(out@ =~= start + join_sep(parts.take(i + 1), seq![',']));
        }
        i = i + 1;
    }
    out.append("]");
    proof {
        reveal_strlit("[");
        reveal_strlit("]");
        assert(parts.take(n as int) =~= parts);
        assert(out@ =~= old(out)@ + grid_json(rows));
    }
}

/// Appends the JSON rendering of the feature list.
fn append_features_json(out: &mut String, f: &Option<Vec<String>>)
    ensures
        final(out)@ == old(out)@ + features_json(match f {
            Some(fs) => Some(Seq::new(fs@.len(), |i: int| fs@[i]@)),
            None => None,
        }),
{
    match f {
        None => {
            out.append("null");
            proof {
                reveal_strlit("null");
                assert(out@ =~= old(out)@ + "null"@);
            }
        },
        Some(fs) => {
            let ghost model = Seq::new(fs@.len(), |i: int| fs@[i]@);
            let ghost parts = Seq::new(model.len(), |i: int| quoted(model[i]));
            out.append("[");
            let ghost start = out@;
            let n = fs.len();
            let mut i: usize = 0;
            proof {
                assert(parts.take(0) =~= Seq::<Seq<char>>::empty());
            }
            while i < n
                invariant
                    0 <= i <= n,
                    n == fs@.len(),
                    model == Seq::new(fs@.len(), |k: int| fs@[k]@),
                    parts == Seq::new(model.len(), |k: int| quoted(model[k])),
                    out@ == start + join_sep(parts.take(i as int), seq![',']),
                decreases n - i,
            {
                if i > 0 {
                    out.append(",");
                }
                append_quoted(out, fs[i].as_str());
                proof {
                    reveal_strlit(",");
                    lemma_join_sep_take(parts, seq![','], i as int);
                    assert(out@ =~= start + join_sep(parts.take(i + 1), seq![',']));
                }
                i = i + 1;
            }
            out.append("]");
            proof {
                reveal_strlit("[");
                reveal_strlit("]");
                assert(parts.take(n as int) =~= parts);
                assert(out@ =~= old(out)@ + features_json(Some(model)));
            }
        },
    }
}

/// One catalog entry as decoded from the configuration file: the `path`,
/// `version` and `format` fields, and the `author` field.
pub struct RawMapEntry {
    /// The `path` field.
    pub path: RawField,
    /// The `version` field.
    pub version: RawField,
    /// The `format` field.
    pub format: RawField,
    /// The `author` field.
    pub author: RawAuthor,
}

/// The `Maps` table of the decoded configuration file.
pub struct RawMapsTable {
    /// The catalog version field, `Maps.version`.
    pub version: RawField,
    /// The declared map names, `Maps.maps`: `None` when missing or not a
    /// list; `None` elements for non-text entries.
    pub maps: Option<Vec<Option<String>>>,
}

/// A whole decoded configuration file: the `Maps` table (`None` when
/// absent) and the per-map top-level tables, keyed by map name.
pub struct RawConfig {
    /// The `Maps` table.
    pub maps: Option<RawMapsTable>,
    /// The per-map tables; any top-level entry looked up by name.
    pub tables: Vec<(String, RawMapEntry)>,
}

/// The author list a decoded `author` field produces: `None` as soon as
/// any value in it is not text.
pub open spec fn author_value(a: RawAuthor) -> Option<Seq<Seq<char>>> {
    match a {
        RawAuthor::Missing => None,
        RawAuthor::Single(o) => match o {
            Some(s) => Some(seq![s@]),
            None => None,
        },
        RawAuthor::Many(v) => if exists|i: int| 0 <= i < v@.len() && v@[i] is None {
            None
        } else {
            Some(Seq::new(v@.len(), |i: int| v@[i]->Some_0@))
        },
    }
}

/// The format name a decoded `format` field selects: a missing or
/// non-text field falls back to JSON.
pub open spec fn format_name(f: RawField) -> Seq<char> {
    match f {
        RawField::Text(s) => s@,
        _ => "JSON"@,
    }
}

/// What a catalog entry holds: the map's name, the file it loads from,
/// the entry's version, format and authors, the verbose flag, and the
/// loaded map once the file has been read.
pub struct MapInfoModel {
    /// The map name.
    pub name: Seq<char>,
    /// The file the map loads from.
    pub file: Seq<char>,
    /// The entry's version.
    pub version: Version,
    /// The map file's format.
    pub format: MapFormat,
    /// The authors, when all of them were text values.
    pub author: Option<Seq<Seq<char>>>,
    /// Whether the entry logs verbosely.
    pub verbose: bool,
    /// The loaded map, once attached.
    pub loaded: Option<GameMapModel>,
}

/// The catalog entry a decoded configuration table produces, or `None`
/// when the table is rejected: the `path` and `version` fields must be
/// text, the version must parse as a semantic version, and the format
/// must (case-insensitively) be `json`.
pub open spec fn conf_one_model(e: RawMapEntry, name: Seq<char>, verbose: bool) -> Option<
    MapInfoModel,
> {
    if !(e.path is Text) {
        None
    } else if !(e.version is Text) {
        None
    } else {
        match crate::version::semver_parse(e.version->Text_0@) {
            None => None,
            Some(t) => if text::ci_equal(format_name(e.format), "json"@) {
                Some(
                    MapInfoModel {
                        name,
                        file: e.path->Text_0@,
                        version: Version::spec_from_parts(t),
                        format: MapFormat::JSON,
                        author: author_value(e.author),
                        verbose,
                        loaded: None,
                    },
                )
            } else {
                None
            },
        }
    }
}

/// A map name `k` declared in the names list whose table exists and is
/// accepted: such names make up the catalog.
pub open spec fn conf_includes(
    names: Seq<Option<String>>,
    tables: Seq<(String, RawMapEntry)>,
    k: Seq<char>,
    verbose: bool,
) -> bool {
    &&& exists|i: int| 0 <= i < names.len() && names[i] is Some && (#[trigger] names[i])->Some_0@
        == k
    &&& registry::has_key(tables, k)
    &&& conf_one_model(registry::get_val(tables, k), k, verbose) is Some
}

/// One catalog entry: where a map lives, in which format, its version
/// and authors, and, once attached, the loaded map itself.
#[derive(Debug)]
pub struct MapInfo {
    p_name: String,
    p_file: String,
    p_version: Version,
    p_format: MapFormat,
    p_author: Option<Vec<String>>,
    p_verbose: bool,
    p_loaded: Option<GameMap>,
}

impl View for MapInfo {
    type V = MapInfoModel;

    closed spec fn view(&self) -> MapInfoModel {
        MapInfoModel {
            name: self.p_name@,
            file: self.p_file@,
            version: self.p_version,
            format: self.p_format,
            author: match self.p_author {
                Some(v) => Some(Seq::new(v@.len(), |i: int| v@[i]@)),
                None => None,
            },
            verbose: self.p_verbose,
            loaded: match self.p_loaded {
                Some(m) => Some(m@),
                None => None,
            },
        }
    }
}

/// Builds the author list from a decoded `author` field.
fn author_from(a: &RawAuthor) -> (r: Option<Vec<String>>)
    ensures
        match author_value(*a) {
            Some(m) => r matches Some(v) && v@.len() == m.len() && (forall|i: int|
                0 <= i < m.len() ==> v@[i]@ == m[i]),
            None => r is None,
        },
{
    match a {
        RawAuthor::Missing => None,
        RawAuthor::Single(o) => match o {
            Some(s) => {
                let mut v: Vec<String> = Vec::new();
                v.push(s.clone());
                Some(v)
            },
            None => None,
        },
        RawAuthor::Many(items) => {
            let n = items.len();
            let mut v: Vec<String> = Vec::new();
            let mut i: usize = 0;
            while i < n
                invariant
                    0 <= i <= n,
                    n == items@.len(),
                    a == RawAuthor::Many(*items),
                    forall|j: int| 0 <= j < i ==> items@[j] is Some,
                    v@.len() == i,
                    forall|j: int| 0 <= j < i ==> v@[j]@ == items@[j]->Some_0@,
                decreases n - i,
            {
                match &items[i] {
                    Some(s) => {
                        v.push(s.clone());
                    },
                    None => {
                        proof {
                            assert(a->Many_0@[i as int] is None);
                        }
                        return None;
                    },
                }
                i = i + 1;
            }
            Some(v)
        },
    }
}

impl MapInfo {
    /// Builds a catalog entry from the given data; no decision is taken
    /// here, and no map is loaded yet.
    pub fn new(
        name: String,
        file: String,
        version: Version,
        format: MapFormat,
        author: Option<Vec<String>>,
        verbose: bool,
    ) -> (r: MapInfo)
        ensures
            r@ == (MapInfoModel {
                name: name@,
                file: file@,
                version,
                format,
                author: match author {
                    Some(v) => Some(Seq::new(v@.len(), |i: int| v@[i]@)),
                    None => None,
                },
                verbose,
                loaded: None,
            }),
    {
        MapInfo {
            p_name: name,
            p_file: file,
            p_version: version,
            p_format: format,
            p_author: author,
            p_verbose: verbose,
            p_loaded: None,
        }
    }

    /// Reads one catalog entry from its decoded configuration table: the
    /// `path` and `version` fields must be text, the version must parse,
    /// and the format (defaulting to JSON) must be `json` in any
    /// capitalisation.
    pub fn from_conf_one(entry: &RawMapEntry, name: String, verbose: bool) -> (r: Result<
        MapInfo,
        Error,
    >)
        ensures
            !(entry.path is Text) ==> (r matches Err(e) && e.spec_kind() matches
                ErrorKind::FieldNotExists(f) && f@ == name@ + ".path"@),
            entry.path is Text && !(entry.version is Text) ==> (r matches Err(e) && e.spec_kind()
                matches ErrorKind::FieldNotExists(f) && f@ == name@ + ".version"@),
            entry.version matches RawField::Text(vs) ==> (entry.path is Text ==> (
            crate::version::semver_parse(vs@) is None ==> (r matches Err(e) && e.spec_kind()
                is VersionNotParsed))),
            entry.version matches RawField::Text(vs) ==> ((entry.path is Text
                && crate::version::semver_parse(vs@) is Some && !text::ci_equal(
                format_name(entry.format),
                "json"@,
            )) ==> (r matches Err(e) && e.spec_kind() is FormatNotSupported)),
            conf_one_model(*entry, name@, verbose) matches Some(m) ==> (r matches Ok(mi) && mi@
                == m),
    {
        proof {
            reveal_strlit("json");
            reveal_strlit("JSON");
            reveal_strlit(".path");
            reveal_strlit(".version");
        }
        let file = match &entry.path {
            RawField::Text(p) => p.clone(),
            _ => {
                let mut msg = name;
                msg.append(".path");
                return Err(Error::new_field_not_exists(msg));
            },
        };
        let vtext = match &entry.version {
            RawField::Text(v) => v,
            _ => {
                let mut msg = name;
                msg.append(".version");
                return Err(Error::new_field_not_exists(msg));
            },
        };
        let version = match Version::parse(vtext.as_str()) {
            Some(v) => v,
            None => {
                return Err(Error::new(ErrorKind::VersionNotParsed));
            },
        };
        let json_format = match &entry.format {
            RawField::Text(s) => text::equals_ci(s.as_str(), "json"),
            _ => {
                proof {
                    assert(text::ci_equal("JSON"@, "json"@));
                }
                true
            },
        };
        if !json_format {
            return Err(Error::new(ErrorKind::FormatNotSupported));
        }
        let author = author_from(&entry.author);
        let r = MapInfo {
            p_name: name,
            p_file: file,
            p_version: version,
            p_format: MapFormat::JSON,
            p_author: author,
            p_verbose: verbose,
            p_loaded: None,
        };
        proof {
            let m = conf_one_model(*entry, r.p_name@, verbose)->Some_0;
            if r@.author is Some {
                assert(r@.author->Some_0 =~= m.author->Some_0);
            }
        }
        Ok(r)
    }

    /// Reads the whole catalog from the decoded configuration: for every
    /// declared name whose table exists and is accepted, one entry; every
    /// other declared name is skipped.
    pub fn from_conf(
        maps_names: &Option<Vec<Option<String>>>,
        tables: &Vec<(String, RawMapEntry)>,
        verbose: bool,
    ) -> (r: Result<Vec<(String, MapInfo)>, Error>)
        requires
            registry::uniq_keys(tables@),
        ensures
            maps_names is None ==> (r matches Err(e) && e.spec_kind() matches
                ErrorKind::FieldNotExists(f) && f@ == "Maps.maps"@),
            maps_names matches Some(names) ==> (r matches Ok(reg) && registry::uniq_keys(reg@) && (
            forall|k: Seq<char>|
                registry::has_key(reg@, k) == conf_includes(names@, tables@, k, verbose)) && (
            forall|k: Seq<char>|
                conf_includes(names@, tables@, k, verbose) ==> registry::get_val(reg@, k)@
                    == conf_one_model(registry::get_val(tables@, k), k, verbose)->Some_0)),
    {
        let names = match maps_names {
            Some(names) => names,
            None => {
                return Err(Error::new_field_not_exists(String::from_str("Maps.maps")));
            },
        };
        let n = names.len();
        let mut reg: Vec<(String, MapInfo)> = Vec::new();
        let mut i: usize = 0;
        while i < n
            invariant
                0 <= i <= n,
                n == names@.len(),
                registry::uniq_keys(tables@),
                registry::uniq_keys(reg@),
                forall|k: Seq<char>| #[trigger] registry::has_key(reg@, k) == conf_includes(
                    names@.take(i as int),
                    tables@,
                    k,
                    verbose,
                ),
                forall|k: Seq<char>|
                    conf_includes(names@.take(i as int), tables@, k, verbose)
                        ==> #[trigger] registry::get_val(reg@, k)@ == conf_one_model(
                        registry::get_val(tables@, k),
                        k,
                        verbose,
                    )->Some_0,
            decreases n - i,
        {
            let ghost pre = reg@;
            match &names[i] {
                None => {
                    proof {
                        lemma_conf_includes_step(names@, tables@, i as int, verbose);
                    }
                },
                Some(name) => {
                    match registry::find_idx(tables, name.as_str()) {
                        None => {
                            proof {
                                lemma_conf_includes_step(names@, tables@, i as int, verbose);
                            }
                        },
                        Some(t) => {
                            proof {
                                registry::lemma_get_at(tables@, name@, t as int);
                            }
                            match MapInfo::from_conf_one(&tables[t].1, name.clone(), verbose) {
                                Err(_) => {
                                    proof {
                                        lemma_conf_includes_step(names@, tables@, i as int, verbose);
                                        assert(conf_one_model(
                                            registry::get_val(tables@, name@),
                                            name@,
                                            verbose,
                                        ) is None);
                                    }
                                },
                                Ok(info) => {
                                    registry::upsert(&mut reg, name.clone(), info);
                                    proof {
                                        lemma_conf_includes_step(names@, tables@, i as int, verbose);
                                        assert forall|k: Seq<char>| #[trigger] registry::has_key(
                                            reg@,
                                            k,
                                        ) == conf_includes(
                                            names@.take(i + 1),
                                            tables@,
                                            k,
                                            verbose,
                                        ) by {
                                            if k == name@ {
                                                assert(registry::has_key(reg@, k));
                                                assert(names@.take(i + 1)[i as int] is Some);
                                            } else {
                                                assert(registry::has_key(reg@, k) == registry::has_key(
                                                    pre,
                                                    k,
                                                ));
                                            }
                                        }
                                    }
                                },
                            }
                        },
                    }
                },
            }
            i = i + 1;
        }
        proof {
            assert(names@.take(n as int) =~= names@);
        }
        Ok(reg)
    }

    /// The name of the map this entry describes.
    pub fn name(&self) -> (r: &String)
        ensures
            r@ == self@.name,
    {
        &self.p_name
    }

    /// The version of the map.
    pub fn version(&self) -> (r: &Version)
        ensures
            *r == self@.version,
    {
        &self.p_version
    }

    /// Puts the entry into verbose mode.
    pub fn verbose(&mut self)
        ensures
            final(self)@ == (MapInfoModel { verbose: true, ..old(self)@ }),
    {
        self.p_verbose = true;
    }

    /// Whether the entry is in verbose mode.
    pub fn is_verbose(&self) -> (r: bool)
        ensures
            r == self@.verbose,
    {
        self.p_verbose
    }

    /// All authors of the map run together as one text; `None` when the
    /// entry has no usable author list.
    pub fn author(&self) -> (r: Option<String>)
        ensures
            self@.author matches Some(fs) ==> (r matches Some(s) && s@ == join_sep(
                fs,
                Seq::<char>::empty(),
            )),
            self@.author is None ==> r is None,
    {
        let authors = match &self.p_author {
            Some(m) => m,
            None => {
                return None;
            },
        };
        let ghost fs = self@.author->Some_0;
        let n = authors.len();
        let mut out = String::new();
        let mut i: usize = 0;
        proof {
            assert(fs.take(0) =~= Seq::<Seq<char>>::empty());
        }
        while i < n
            invariant
                0 <= i <= n,
                n == authors@.len(),
                n == fs.len(),
                forall|j: int| 0 <= j < n ==> authors@[j]@ == fs[j],
                out@ == join_sep(fs.take(i as int), Seq::<char>::empty()),
            decreases n - i,
        {
            out.append(authors[i].as_str());
            proof {
                lemma_join_sep_take(fs, Seq::<char>::empty(), i as int);
                assert(out@ =~= join_sep(fs.take(i + 1), Seq::<char>::empty()));
            }
            i = i + 1;
        }
        proof {
            assert(fs.take(n as int) =~= fs);
        }
        Some(out)
    }

    /// A finished map cannot be produced from the entry alone; the map
    /// file must be loaded and attached first. Always fails.
    pub fn get_map(&self) -> (r: Result<GameMap, Error>)
        ensures
            r matches Err(e) && e.spec_kind() matches ErrorKind::FieldNotExists(f) && f@
                == "code"@,
    {
        Err(Error::new_field_not_exists(String::from_str("code")))
    }

    /// The loaded map of this entry; an error naming the map file when
    /// none has been attached.
    pub fn load_map(&self) -> (r: Result<GameMap, Error>)
        ensures
            self@.loaded matches Some(m) ==> (r matches Ok(g) && g@ == m),
            self@.loaded is None ==> (r matches Err(e) && e.spec_kind() matches
                ErrorKind::FieldNotExists(f) && f@ == self@.file),
    {
        match &self.p_loaded {
            Some(m) => Ok(m.duplicate()),
            None => Err(Error::new_field_not_exists(self.p_file.clone())),
        }
    }

    /// Attaches the loaded map to this entry.
    pub fn set_loaded(&mut self, m: GameMap)
        ensures
            final(self)@ == (MapInfoModel { loaded: Some(m@), ..old(self)@ }),
    {
        self.p_loaded = Some(m);
    }
}

/// Every declared name in `names.take(i + 1)` is a declared name in
/// `names.take(i)` or the name at position `i` itself.
pub proof fn lemma_conf_includes_step(
    names: Seq<Option<String>>,
    tables: Seq<(String, RawMapEntry)>,
    i: int,
    verbose: bool,
)
    requires
        0 <= i < names.len(),
    ensures
        forall|k: Seq<char>| #[trigger] conf_includes(names.take(i + 1), tables, k, verbose) == (
        conf_includes(names.take(i), tables, k, verbose) || (names[i] is Some && names[i]->Some_0@
            == k && registry::has_key(tables, k) && conf_one_model(
            registry::get_val(tables, k),
            k,
            verbose,
        ) is Some)),
{
    let a = names.take(i + 1);
    let b = names.take(i);
    assert forall|k: Seq<char>| #[trigger] conf_includes(a, tables, k, verbose) == (conf_includes(
        b,
        tables,
        k,
        verbose,
    ) || (names[i] is Some && names[i]->Some_0@ == k && registry::has_key(tables, k)
        && conf_one_model(registry::get_val(tables, k), k, verbose) is Some)) by {
        if conf_includes(a, tables, k, verbose) {
            let j = choose|j: int| 0 <= j < a.len() && a[j] is Some && (#[trigger] a[j])->Some_0@
                == k;
            if j < i {
                assert(b[j] is Some && b[j]->Some_0@ == k);
            } else {
                assert(names[i] is Some && names[i]->Some_0@ == k);
            }
        }
        if conf_includes(b, tables, k, verbose) {
            let j = choose|j: int| 0 <= j < b.len() && b[j] is Some && (#[trigger] b[j])->Some_0@
                == k;
            assert(a[j] is Some && a[j]->Some_0@ == k);
        }
        if names[i] is Some && names[i]->Some_0@ == k {
            assert(a[i] is Some && a[i]->Some_0@ == k);
        }
    }
}

/// The map catalog: the catalog's own version and one entry per declared
/// map, keyed by map name.
#[derive(Debug)]
pub struct MapPlaces {
    p_version: Version,
    p_maps: Vec<(String, MapInfo)>,
}

impl MapPlaces {
    /// The catalog's entries, in insertion order.
    pub closed spec fn maps_seq(&self) -> Seq<(String, MapInfo)> {
        self.p_maps@
    }

    /// The catalog's version.
    pub closed spec fn spec_version(&self) -> Version {
        self.p_version
    }

    /// Well-formedness: no map name is listed twice.
    pub open spec fn wf(&self) -> bool {
        registry::uniq_keys(self.maps_seq())
    }

    /// Builds the catalog from a decoded configuration file: the `Maps`
    /// table must exist, its `version` must be a parsable text field, and
    /// when that version is below `99.99.99` the declared maps are read
    /// (otherwise the catalog stays empty).
    pub fn new(cfg: &RawConfig, verbose: bool) -> (r: Result<MapPlaces, Error>)
        requires
            registry::uniq_keys(cfg.tables@),
        ensures
            cfg.maps is None ==> (r matches Err(e) && e.spec_kind() matches
                ErrorKind::FieldNotExists(f) && f@ == "Maps"@),
            cfg.maps matches Some(t) ==> (!(t.version is Text) ==> (r matches Err(e)
                && e.spec_kind() matches ErrorKind::FieldNotExists(f) && f@ == "Maps.version"@)),
            cfg.maps matches Some(t) ==> (t.version matches RawField::Text(vs) ==> (
            crate::version::semver_parse(vs@) is None ==> (r matches Err(e) && e.spec_kind()
                is VersionNotParsed))),
            cfg.maps matches Some(t) ==> (t.version matches RawField::Text(vs) ==> (
            crate::version::semver_parse(vs@) matches Some(tu) ==> ({
                let v = Version::spec_from_parts(tu);
                if v.spec_lt(Version { major: 99, minor: 99, patch: 99, pre: false }) {
                    &&& (t.maps is None ==> (r matches Err(e) && e.spec_kind() matches
                        ErrorKind::FieldNotExists(f) && f@ == "Maps.maps"@))
                    &&& (t.maps matches Some(names) ==> (r matches Ok(mp) && mp.wf()
                        && mp.spec_version() == v && (forall|k: Seq<char>| registry::has_key(
                        mp.maps_seq(),
                        k,
                    ) == conf_includes(names@, cfg.tables@, k, verbose)) && (forall|k: Seq<char>|
                        conf_includes(names@, cfg.tables@, k, verbose) ==> registry::get_val(
                            mp.maps_seq(),
                            k,
                        )@ == conf_one_model(
                            registry::get_val(cfg.tables@, k),
                            k,
                            verbose,
                        )->Some_0)))
                } else {
                    r matches Ok(mp) && mp.wf() && mp.spec_version() == v && mp.maps_seq().len()
                        == 0
                }
            }))),
    {
        let t = match &cfg.maps {
            Some(t) => t,
            None => {
                return Err(Error::new_field_not_exists(String::from_str("Maps")));
            },
        };
        let vs = match &t.version {
            RawField::Text(s) => s,
            _ => {
                return Err(Error::new_field_not_exists(String::from_str("Maps.version")));
            },
        };
        let version = match Version::parse(vs.as_str()) {
            Some(v) => v,
            None => {
                return Err(Error::new(ErrorKind::VersionNotParsed));
            },
        };
        let mut maps: Vec<(String, MapInfo)> = Vec::new();
        if version.precedes(&Version::new(99, 99, 99)) {
            maps = match MapInfo::from_conf(&t.maps, &cfg.tables, verbose) {
                Ok(m) => m,
                Err(e) => {
                    return Err(e);
                },
            };
        }
        Ok(MapPlaces { p_version: version, p_maps: maps })
    }

    /// The names of all maps the catalog describes, in catalog order.
    pub fn available_maps(&self) -> (r: Vec<String>)
        ensures
            r@.len() == self.maps_seq().len(),
            forall|i: int| 0 <= i < r@.len() ==> r@[i]@ == self.maps_seq()[i].0@,
    {
        registry::keys(&self.p_maps)
    }

    /// The map stored under `name`: its loaded rendering, an error naming
    /// its file when it was never loaded, and an error naming `name` when
    /// the catalog has no such map.
    pub fn get(&self, name: &str) -> (r: Result<GameMap, Error>)
        requires
            self.wf(),
        ensures
            registry::has_key(self.maps_seq(), name@) ==> ({
                let info = registry::get_val(self.maps_seq(), name@)@;
                &&& (info.loaded matches Some(m) ==> (r matches Ok(g) && g@ == m))
                &&& (info.loaded is None ==> (r matches Err(e) && e.spec_kind() matches
                    ErrorKind::FieldNotExists(f) && f@ == info.file))
            }),
            !registry::has_key(self.maps_seq(), name@) ==> (r matches Err(e) && e.spec_kind()
                matches ErrorKind::FieldNotExists(f) && f@ == name@),
    {
        match registry::find_idx(&self.p_maps, name) {
            Some(i) => {
                proof {
                    registry::lemma_get_at(self.p_maps@, name@, i as int);
                }
                self.p_maps[i].1.load_map()
            },
            None => Err(Error::new_field_not_exists(String::from_str(name))),
        }
    }

    /// The map stored under `name`, taking the name by value.
    pub fn get_map(&self, name: String) -> (r: Result<GameMap, Error>)
        requires
            self.wf(),
        ensures
            registry::has_key(self.maps_seq(), name@) ==> ({
                let info = registry::get_val(self.maps_seq(), name@)@;
                &&& (info.loaded matches Some(m) ==> (r matches Ok(g) && g@ == m))
                &&& (info.loaded is None ==> (r matches Err(e) && e.spec_kind() matches
                    ErrorKind::FieldNotExists(f) && f@ == info.file))
            }),
            !registry::has_key(self.maps_seq(), name@) ==> (r matches Err(e) && e.spec_kind()
                matches ErrorKind::FieldNotExists(f) && f@ == name@),
    {
        self.get(name.as_str())
    }

    /// The authors of the map stored under `name`, run together as one
    /// text; `None` when the map or its author list is absent.
    pub fn get_author(&self, name: &str) -> (r: Option<String>)
        requires
            self.wf(),
        ensures
            registry::has_key(self.maps_seq(), name@) ==> ({
                let info = registry::get_val(self.maps_seq(), name@)@;
                &&& (info.author matches Some(fs) ==> (r matches Some(s) && s@ == join_sep(
                    fs,
                    Seq::<char>::empty(),
                )))
                &&& (info.author is None ==> r is None)
            }),
            !registry::has_key(self.maps_seq(), name@) ==> r is None,
    {
        match registry::find_idx(&self.p_maps, name) {
            Some(i) => {
                proof {
                    registry::lemma_get_at(self.p_maps@, name@, i as int);
                }
                self.p_maps[i].1.author()
            },
            None => None,
        }
    }

    /// The version of the catalog.
    pub fn version(&self) -> (r: &Version)
        ensures
            *r == self.spec_version(),
    {
        &self.p_version
    }

    /// Attaches a loaded map to the entry stored under `name`; reports
    /// whether the entry exists.
    pub fn set_loaded(&mut self, name: &str, m: GameMap) -> (r: bool)
        requires
            old(self).wf(),
        ensures
            final(self).wf(),
            final(self).spec_version() == old(self).spec_version(),
            r == registry::has_key(old(self).maps_seq(), name@),
            r ==> registry::has_key(final(self).maps_seq(), name@) && registry::get_val(
                final(self).maps_seq(),
                name@,
            )@ == (MapInfoModel {
                loaded: Some(m@),
                ..registry::get_val(old(self).maps_seq(), name@)@
            }),
            !r ==> final(self).maps_seq() == old(self).maps_seq(),
            forall|k: Seq<char>| k != name@ ==> registry::has_key(final(self).maps_seq(), k)
                == registry::has_key(old(self).maps_seq(), k),
            forall|k: Seq<char>| k != name@ && registry::has_key(old(self).maps_seq(), k)
                ==> registry::get_val(final(self).maps_seq(), k) == registry::get_val(
                old(self).maps_seq(),
                k,
            ),
    {
        match registry::remove_key(&mut self.p_maps, name) {
            Some(mut info) => {
                info.set_loaded(m);
                registry::upsert(&mut self.p_maps, String::from_str(name), info);
                true
            },
            None => false,
        }
    }
}

} // verus!
