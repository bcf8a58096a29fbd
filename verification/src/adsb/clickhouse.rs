//! The telemetry source: the request that asks it for one time window, and
//! the reading of its answer into a snapshot.

use vstd::prelude::*;
use crate::adsb::math::Degrees;
use crate::adsb::task_pool::{inserted, DataFetch};
use crate::adsb::text::{
    chars_of, decimal, decimal_text, lemma_decimal_len, lines_of, pieces, split, split_lines,
    string_of, texts,
};

verus! {

/// One row of fetched telemetry.
#[derive(Debug)]
pub struct PlaneData {
    pub icao: String,
    pub lat: Degrees,
    pub lon: Degrees,
    pub ac_type: String,
    pub registration: String,
    pub track_degrees: Degrees,
}

/// What a row holds, with its texts as sequences of characters.
#[verifier::ext_equal]
pub struct PlaneDataView {
    pub icao: Seq<char>,
    pub lat: Degrees,
    pub lon: Degrees,
    pub ac_type: Seq<char>,
    pub registration: Seq<char>,
    pub track_degrees: Degrees,
}

impl View for PlaneData {
    type V = PlaneDataView;

    open spec fn view(&self) -> PlaneDataView {
        PlaneDataView {
            icao: self.icao@,
            lat: self.lat,
            lon: self.lon,
            ac_type: self.ac_type@,
            registration: self.registration@,
            track_degrees: self.track_degrees,
        }
    }
}

impl Clone for PlaneData {
    fn clone(&self) -> (r: PlaneData)
        ensures
            r@ == self@,
    {
        PlaneData {
            icao: self.icao.clone(),
            lat: self.lat,
            lon: self.lon,
            ac_type: self.ac_type.clone(),
            registration: self.registration.clone(),
            track_degrees: self.track_degrees,
        }
    }
}

/// How many fields a row has: identifier, latitude, longitude, aircraft type,
/// registration, heading.
pub const FIELD_COUNT: usize = 6;

/// The largest number of rows asked for in one request.
pub const ROW_LIMIT: u32 = 5_000;

/// Why a row was dropped.
#[derive(Clone, Copy, Debug, PartialEq, Eq, Structural)]
pub enum MalformedRecordError {
    /// The row does not have six fields.
    FieldCount,
    /// Latitude, longitude or heading is not a number.
    Number,
}

/// The numeric fields of one row as read: each is a single-precision bit
/// pattern, or nothing where the field is not a number.
#[derive(Clone, Copy, Debug)]
pub struct Numbers {
    pub lat: Option<u32>,
    pub lon: Option<u32>,
    pub track_degrees: Option<u32>,
}

/// What a row gives, from its fields and its numbers as read.
pub open spec fn row_outcome(fields: Seq<Seq<char>>, numbers: Numbers) -> Result<
    PlaneDataView,
    MalformedRecordError,
> {
    if fields.len() != FIELD_COUNT {
        Err(MalformedRecordError::FieldCount)
    } else if numbers.lat.is_none() || numbers.lon.is_none() || numbers.track_degrees.is_none() {
        Err(MalformedRecordError::Number)
    } else {
        Ok(
            PlaneDataView {
                icao: fields[0],
                lat: Degrees(numbers.lat.unwrap()),
                lon: Degrees(numbers.lon.unwrap()),
                ac_type: fields[3],
                registration: fields[4],
                track_degrees: Degrees(numbers.track_degrees.unwrap()),
            },
        )
    }
}

impl PlaneData {
    /// Makes a row from its fields and its numbers as read, or says why the row
    /// is dropped.
    pub fn from_fields(fields: &Vec<Vec<char>>, numbers: Numbers) -> (r: Result<
        PlaneData,
        MalformedRecordError,
    >)
        ensures
            match r {
                Ok(record) => row_outcome(texts(fields@), numbers) == Ok::<
                    PlaneDataView,
                    MalformedRecordError,
                >(record@),
                Err(e) => row_outcome(texts(fields@), numbers) == Err::<
                    PlaneDataView,
                    MalformedRecordError,
                >(e),
            },
    {
        if fields.len() != FIELD_COUNT {
            return Err(MalformedRecordError::FieldCount);
        }
        match (numbers.lat, numbers.lon, numbers.track_degrees) {
            (Some(lat), Some(lon), Some(track)) => {
                let record = PlaneData {
                    icao: string_of(&fields[0]),
                    lat: Degrees(lat),
                    lon: Degrees(lon),
                    ac_type: string_of(&fields[3]),
                    registration: string_of(&fields[4]),
                    track_degrees: Degrees(track),
                };
                assert(record@ =~= row_outcome(texts(fields@), numbers).unwrap());
                Ok(record)
            },
            _ => Err(MalformedRecordError::Number),
        }
    }
}

/// `number` read the text and gave `r`.
pub open spec fn number_gave<N: Fn(&String) -> Option<u32>>(
    number: &N,
    text: Seq<char>,
    r: Option<u32>,
) -> bool {
    exists|s: String| #[trigger] number.ensures((&s,), r) && s@ == text
}

/// The numbers of a row are what `number` gave for its latitude, longitude and
/// heading; a row without six fields is not read at all.
pub open spec fn numbers_read<N: Fn(&String) -> Option<u32>>(
    number: &N,
    fields: Seq<Seq<char>>,
    numbers: Numbers,
) -> bool {
    if fields.len() == FIELD_COUNT {
        &&& number_gave(number, fields[1], numbers.lat)
        &&& number_gave(number, fields[2], numbers.lon)
        &&& number_gave(number, fields[5], numbers.track_degrees)
    } else {
        numbers.lat.is_none() && numbers.lon.is_none() && numbers.track_degrees.is_none()
    }
}

/// The numbers of every line are what `number` gave.
pub open spec fn parsed_by<N: Fn(&String) -> Option<u32>>(
    number: &N,
    lines: Seq<Seq<char>>,
    numbers: Seq<Numbers>,
) -> bool {
    &&& numbers.len() == lines.len()
    &&& forall|i: int|
        0 <= i < lines.len() ==> numbers_read(number, pieces(lines[i], ','), #[trigger] numbers[i])
}

/// The snapshot that the lines give, read in order: a well-formed row is
/// inserted, over an earlier row with its identifier if there is one, and a
/// malformed row is dropped.
pub open spec fn collected(lines: Seq<Seq<char>>, numbers: Seq<Numbers>) -> Seq<PlaneDataView>
    decreases lines.len(),
{
    if lines.len() == 0 {
        Seq::empty()
    } else {
        let before = collected(lines.drop_last(), numbers.drop_last());
        match row_outcome(pieces(lines.last(), ','), numbers.last()) {
            Ok(record) => inserted(before, record),
            Err(_) => before,
        }
    }
}

/// Reads the answer of the telemetry source into a snapshot. Each line is one
/// row of comma-separated fields; `number` reads a numeric field and gives its
/// single-precision bit pattern, or nothing if the field is not a number.
pub fn get_planes<N: Fn(&String) -> Option<u32>>(body: &str, number: &N) -> (r: DataFetch)
    requires
        forall|s: &String| number.requires((s,)),
    ensures
        r.wf(),
        exists|numbers: Seq<Numbers>| #[trigger]
            parsed_by(number, lines_of(body@), numbers) && r@ == collected(
                lines_of(body@),
                numbers,
            ),
{
    let text: Vec<char> = chars_of(body);
    let lines: Vec<Vec<char>> = split_lines(&text);
    let ghost all = lines_of(body@);
    let mut r: DataFetch = DataFetch::new();
    let ghost mut numbers: Seq<Numbers> = Seq::empty();
    let n: usize = lines.len();
    assert(n == all.len()) by {
        assert(texts(lines@).len() == lines@.len());
    }
    let mut i: usize = 0;
    assert(all.take(0) =~= Seq::<Seq<char>>::empty());
    while i < n
        invariant
            i <= n,
            n == lines@.len(),
            texts(lines@) == all,
            forall|s: &String| number.requires((s,)),
            r.wf(),
            numbers.len() == i,
            forall|k: int|
                0 <= k < i ==> numbers_read(number, pieces(all[k], ','), #[trigger] numbers[k]),
            r@ == collected(all.take(i as int), numbers),
        decreases n - i,
    {
        let line: &Vec<char> = &lines[i];
        assert(line@ == all[i as int]) by {
            assert(texts(lines@)[i as int] == lines@[i as int]@);
        }
        let fields: Vec<Vec<char>> = split(line, ',');
        assert(fields@.len() == pieces(line@, ',').len()) by {
            assert(texts(fields@).len() == fields@.len());
        }
        let read: Numbers = if fields.len() == FIELD_COUNT {
            let lat_text: String = string_of(&fields[1]);
            let lon_text: String = string_of(&fields[2]);
            let track_text: String = string_of(&fields[5]);
            let lat: Option<u32> = number(&lat_text);
            let lon: Option<u32> = number(&lon_text);
            let track: Option<u32> = number(&track_text);
            proof {
                assert(texts(fields@)[1] == fields@[1]@);
                assert(texts(fields@)[2] == fields@[2]@);
                assert(texts(fields@)[5] == fields@[5]@);
                assert(number.ensures((&lat_text,), lat) && lat_text@ == pieces(line@, ',')[1]);
                assert(number.ensures((&lon_text,), lon) && lon_text@ == pieces(line@, ',')[2]);
                assert(number.ensures((&track_text,), track) && track_text@ == pieces(
                    line@,
                    ',',
                )[5]);
            }
            Numbers { lat, lon, track_degrees: track }
        } else {
            Numbers { lat: None, lon: None, track_degrees: None }
        };
        assert(numbers_read(number, pieces(all[i as int], ','), read));
        let ghost before = r@;
        let ghost numbers_before = numbers;
        proof {
            numbers = numbers.push(read);
            assert(all.take(i + 1).drop_last() =~= all.take(i as int));
            assert(all.take(i + 1).last() == all[i as int]);
            assert(numbers.drop_last() =~= numbers_before);
            assert(numbers.last() == read);
        }
        match PlaneData::from_fields(&fields, read) {
            Ok(record) => {
                r.insert(record);
            },
            Err(_) => {},
        }
        assert(r@ == collected(all.take(i + 1), numbers));
        i += 1;
    }
    assert(all.take(n as int) =~= all);
    assert(parsed_by(number, all, numbers));
    r
}

/// A parsed URL of the `url` crate. Nothing of what it holds is visible here
/// but its text.
#[verifier::external_type_specification]
#[verifier::external_body]
pub struct ExUrl(url::Url);

/// The text of a URL: its serialization, as `Url::as_str` gives it.
pub uninterp spec fn url_text(url: url::Url) -> Seq<char>;

/// The text of the URL that `Url::parse` makes of a text, or nothing where it
/// refuses the text.
pub uninterp spec fn parsed_url(text: Seq<char>) -> Option<Seq<char>>;

/// The text of a URL after every name and value was taken out of its query.
pub uninterp spec fn cleared_query(url: Seq<char>) -> Seq<char>;

/// The text of a URL after a name and its value were added to the end of its
/// query, in `application/x-www-form-urlencoded` form.
pub uninterp spec fn appended_pair(url: Seq<char>, name: Seq<char>, value: Seq<char>) -> Seq<
    char,
>;

/// Parses an absolute URL with `url::Url::parse`. The contract only names the
/// result: the URL's text is what the parser makes of the given text, and there
/// is no URL exactly where the parser refuses it.
#[verifier::external_body]
fn parse_url(text: &str) -> (r: Option<url::Url>)
    ensures
        match r {
            Some(url) => parsed_url(text@) == Some(url_text(url)),
            None => parsed_url(text@).is_none(),
        },
{
    url::Url::parse(text).ok()
}

/// The serialization of a URL, by `url::Url::as_str`.
#[verifier::external_body]
fn url_str(url: &url::Url) -> (r: &str)
    ensures
        r@ == url_text(*url),
{
    url.as_str()
}

/// Empties the query of a URL, by `clear` on `url::Url::query_pairs_mut`. The
/// crate opens a query if the URL has none, which adds one character, and
/// then cuts the query back to its start; it indexes the text with 32 bits,
/// so the text must stay below that size, counted at four bytes a character.
#[verifier::external_body]
fn clear_query(url: &mut url::Url)
    requires
        4 * url_text(*old(url)).len() + 4 <= u32::MAX,
    ensures
        url_text(*final(url)) == cleared_query(url_text(*old(url))),
        url_text(*final(url)).len() <= url_text(*old(url)).len() + 1,
{
    url.query_pairs_mut().clear();
}

/// Adds a name and its value to the query of a URL, by `append_pair` on
/// `url::Url::query_pairs_mut`. The crate writes a separator where one is
/// needed, then the name, an equals sign and the value, each byte written as
/// one character or escaped as three; so the text grows by at most three
/// characters and twelve for every character of name and value. It indexes the
/// text with 32 bits, so the text must stay below that size.
#[verifier::external_body]
fn append_pair(url: &mut url::Url, name: &str, value: &str)
    requires
        4 * url_text(*old(url)).len() + 12 * (name@.len() + value@.len()) + 12 <= u32::MAX,
    ensures
        url_text(*final(url)) == appended_pair(url_text(*old(url)), name@, value@),
        url_text(*final(url)).len() <= url_text(*old(url)).len() + 12 * (name@.len()
            + value@.len()) + 3,
{
    url.query_pairs_mut().append_pair(name, value);
}

/// The longest text of the source's address that a request is built on.
pub const ADDRESS_LIMIT: usize = 1024;

/// The query of a request for the window from `start_time` to `end_time`,
/// added to the address: the answer's format, the credentials, the row limit
/// and the two ends of the window as seconds since the Unix epoch.
pub open spec fn with_window(address: Seq<char>, start_time: int, end_time: int) -> Seq<char> {
    let a = cleared_query(address);
    let b = appended_pair(a, "default_format"@, "CSV"@);
    let c = appended_pair(b, "user"@, "default"@);
    let d = appended_pair(c, "password"@, "not-secret"@);
    let e = appended_pair(d, "param_limit"@, decimal_text(ROW_LIMIT as int));
    let f = appended_pair(e, "param_start_time"@, decimal_text(start_time));
    appended_pair(f, "param_end_time"@, decimal_text(end_time))
}

/// The URL of the request for a window, built on the given address; nothing
/// where the address is no URL or is longer than the limit.
pub open spec fn request_url(address: Seq<char>, start_time: int, end_time: int) -> Option<
    Seq<char>,
> {
    match parsed_url(address) {
        Some(text) => if text.len() <= ADDRESS_LIMIT {
            Some(with_window(text, start_time, end_time))
        } else {
            None
        },
        None => None,
    }
}

/// Builds the URL of the request for the window from `start_time` to
/// `end_time`, both in seconds since the Unix epoch, on the address of the
/// source.
pub fn request_at(address: &str, start_time: i64, end_time: i64) -> (r: Option<String>)
    ensures
        match r {
            Some(text) => request_url(address@, start_time as int, end_time as int) == Some(
                text@,
            ),
            None => request_url(address@, start_time as int, end_time as int).is_none(),
        },
{
    let mut url: url::Url = match parse_url(address) {
        Some(url) => url,
        None => {
            return None;
        },
    };
    if url_str(&url).unicode_len() > ADDRESS_LIMIT {
        return None;
    }
    let limit: String = string_of(&decimal(5_000));
    let start: String = string_of(&decimal(start_time));
    let end: String = string_of(&decimal(end_time));
    proof {
        reveal_strlit("default_format");
        reveal_strlit("CSV");
        reveal_strlit("user");
        reveal_strlit("default");
        reveal_strlit("password");
        reveal_strlit("not-secret");
        reveal_strlit("param_limit");
        reveal_strlit("param_start_time");
        reveal_strlit("param_end_time");
        lemma_decimal_len(5_000);
        lemma_decimal_len(start_time as int);
        lemma_decimal_len(end_time as int);
    }
    clear_query(&mut url);
    append_pair(&mut url, "default_format", "CSV");
    append_pair(&mut url, "user", "default");
    append_pair(&mut url, "password", "not-secret");
    append_pair(&mut url, "param_limit", limit.as_str());
    append_pair(&mut url, "param_start_time", start.as_str());
    append_pair(&mut url, "param_end_time", end.as_str());
    Some(url_str(&url).to_owned())
}

/// The query sent with each request. Its parameters are the window and the
/// row limit that the URL carries.
pub const QUERY: &'static str =
    "SELECT icao, lat, lon, t, r, track_degrees FROM planes_mercator WHERE time > {start_time:DateTime64} AND time < {end_time:DateTime64} ORDER BY time LIMIT {limit:UInt32}";

/// The address of the telemetry source.
pub const ADDRESS: &'static str = "http://localhost:18123";

/// The URL of the request for the window from `start_time` to `end_time`.
pub fn get_url(start_time: i64, end_time: i64) -> (r: Option<String>)
    ensures
        match r {
            Some(text) => request_url(ADDRESS@, start_time as int, end_time as int) == Some(
                text@,
            ),
            None => request_url(ADDRESS@, start_time as int, end_time as int).is_none(),
        },
{
    request_at(ADDRESS, start_time, end_time)
}

} // verus!
