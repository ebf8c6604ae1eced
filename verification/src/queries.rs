//! The one query string the station search builds dynamically: an empty
//! input falls back to the main-station filter, any other input becomes
//! a contains-pattern on the station name.

use vstd::prelude::*;

verus! {

/// The name filter the query uses: the main-station fallback for an
/// empty input, a contains-pattern otherwise.
pub open spec fn station_filter_spec(input: Seq<char>) -> Seq<char> {
    if input.len() == 0 {
        "'%Hbf' OR name LIKE '%Hauptbahnhof'"@
    } else {
        "'%"@ + input + "%'"@
    }
}

/// The full station search statement for `input`.
pub open spec fn station_query_spec(input: Seq<char>) -> Seq<char> {
    "SELECT MIN(stop_id), name FROM stop WHERE name LIKE "@ + station_filter_spec(input)
        + " GROUP BY name;"@
}

/// Builds the station search statement for `input`.
pub fn get_station_query(input: &str) -> (r: String)
    ensures
        r@ == station_query_spec(input@),
{
    let mut query = String::new();
    query.append("SELECT MIN(stop_id), name FROM stop WHERE name LIKE ");
    if input.unicode_len() == 0 {
        query.append("'%Hbf' OR name LIKE '%Hauptbahnhof'");
    } else {
        query.append("'%");
        query.append(input);
        query.append("%'");
    }
    query.append(" GROUP BY name;");
    proof {
        assert(query@ =~= station_query_spec(input@));
    }
    query
}

} // verus!
