use vstd::prelude::*;
use vstd::string::*;
use crate::reply::{details_are, image_missing, internal, name_required, not_found, is_reply, ErrorReply};
use crate::sources::{format_instant, in_chrono_range, rfc3339_of};
use crate::text::{is_blank, trim_of};

verus! {

/// A failure of the store during a read or a delete; its cause is not
/// reported.
#[derive(Clone, Copy, PartialEq, Eq, Structural, Debug)]
pub struct StoreError;

/// The 400 answer when the name in the path is blank, else nothing.
pub fn check_name(name: &str) -> (r: Option<ErrorReply>)
    ensures
        r is Some <==> trim_of(name@).len() == 0,
        r matches Some(e) ==> is_reply(e, 400, "Validation failed"@) && details_are(e.details, "name is required"@),
{
    if is_blank(name) {
        Some(name_required())
    } else {
        None
    }
}

/// The answer to a lookup of one country by name: the row, 404 when no row
/// matched, 500 when the store failed.
pub fn country_reply<T>(found: Result<Option<T>, StoreError>) -> (r: Result<T, ErrorReply>)
    ensures
        match found {
            Ok(Some(c)) => r == Ok::<T, ErrorReply>(c),
            Ok(None) => r matches Err(e) && is_reply(e, 404, "Country not found"@) && e.details is None,
            Err(_) => r matches Err(e) && is_reply(e, 500, "Internal server error"@) && e.details is None,
        },
{
    match found {
        Ok(Some(c)) => Ok(c),
        Ok(None) => Err(not_found()),
        Err(_) => Err(internal()),
    }
}

/// The answer to a delete by name, given how many rows it removed: success
/// when any, 404 when none, 500 when the store failed.
pub fn delete_reply(removed: Result<u64, StoreError>) -> (r: Result<(), ErrorReply>)
    ensures
        match removed {
            Ok(n) => if n > 0 {
                r is Ok
            } else {
                r matches Err(e) && is_reply(e, 404, "Country not found"@) && e.details is None
            },
            Err(_) => r matches Err(e) && is_reply(e, 500, "Internal server error"@) && e.details is None,
        },
{
    match removed {
        Ok(n) => if n > 0 {
            Ok(())
        } else {
            Err(not_found())
        },
        Err(_) => Err(internal()),
    }
}

/// The answer when the summary image cannot be read.
pub fn image_reply(found: bool) -> (r: Result<(), ErrorReply>)
    ensures
        found ==> r is Ok,
        !found ==> (r matches Err(e) && is_reply(e, 404, "Summary image not found"@) && e.details is None),
{
    if found {
        Ok(())
    } else {
        Err(image_missing())
    }
}

/// The status answer: the number of rows and the latest refresh time among
/// them, absent when there are no rows.
pub struct StatusReply {
    pub total_countries: i64,
    pub last_refreshed_at: Option<String>,
}

/// The status answer from the row count and the latest refresh time, in
/// milliseconds since the Unix epoch; 500 when either read failed.
pub fn status_reply(total: Result<i64, StoreError>, latest: Result<Option<i64>, StoreError>) -> (r: Result<
    StatusReply,
    ErrorReply,
>)
    ensures
        match (total, latest) {
            (Ok(n), Ok(l)) => r matches Ok(s) && s.total_countries == n && (l is None ==> s.last_refreshed_at is None)
                && (s.last_refreshed_at matches Some(t) ==> (l matches Some(ms) && t@ == rfc3339_of(ms as int)))
                && (l matches Some(ms) && in_chrono_range(ms as int) ==> s.last_refreshed_at is Some),
            _ => r matches Err(e) && is_reply(e, 500, "Internal server error"@) && e.details is None,
        },
{
    match (total, latest) {
        (Ok(n), Ok(l)) => {
            let text = match l {
                Some(ms) => format_instant(ms),
                None => None,
            };
            Ok(StatusReply { total_countries: n, last_refreshed_at: text })
        },
        _ => Err(internal()),
    }
}

/// The filters and the order of a country listing.
pub struct ListParams {
    pub region: Option<String>,
    pub currency: Option<String>,
    pub sort: Option<String>,
}

/// The SQL text of a country listing and the values bound to its
/// placeholders, in order.
pub struct ListQuery {
    pub sql: String,
    pub binds: Vec<String>,
}

pub open spec fn select_all_sql() -> Seq<char> {
    "SELECT id, name, capital, region, population, currency_code, exchange_rate, estimated_gdp, flag_url, last_refreshed_at FROM countries"@
}

/// A filter applies when its value is present and not blank.
pub open spec fn active(f: Option<String>) -> bool {
    f matches Some(v) && trim_of(v@).len() > 0
}

/// The conditions of the listing, in order: region, then currency.
pub open spec fn conditions(p: ListParams) -> Seq<Seq<char>> {
    let a: Seq<Seq<char>> = if active(p.region) { seq!["region = ?"@] } else { seq![] };
    let b: Seq<Seq<char>> = if active(p.currency) { seq!["currency_code = ?"@] } else { seq![] };
    a + b
}

/// The values bound to the conditions' placeholders, in the same order.
pub open spec fn bound_values(p: ListParams) -> Seq<Seq<char>> {
    let a: Seq<Seq<char>> = if active(p.region) { seq![p.region.unwrap()@] } else { seq![] };
    let b: Seq<Seq<char>> = if active(p.currency) { seq![p.currency.unwrap()@] } else { seq![] };
    a + b
}

pub open spec fn where_sql(conds: Seq<Seq<char>>) -> Seq<char> {
    if conds.len() == 0 {
        Seq::empty()
    } else if conds.len() == 1 {
        " WHERE "@ + conds[0]
    } else {
        " WHERE "@ + conds[0] + " AND "@ + conds[1]
    }
}

pub open spec fn order_sql(sort: Option<String>) -> Seq<char> {
    match sort {
        Some(s) => if s@ == "gdp_desc"@ {
            " ORDER BY estimated_gdp DESC"@
        } else if s@ == "gdp_asc"@ {
            " ORDER BY estimated_gdp ASC"@
        } else {
            Seq::empty()
        },
        None => Seq::empty(),
    }
}

/// The full SQL text of the listing for `p`.
pub open spec fn list_sql(p: ListParams) -> Seq<char> {
    select_all_sql() + where_sql(conditions(p)) + order_sql(p.sort)
}

fn active_filter(f: &Option<String>) -> (r: bool)
    ensures
        r == active(*f),
{
    match f {
        Some(v) => !is_blank(v.as_str()),
        None => false,
    }
}

/// Builds the listing query: the region and currency filters that are
/// present and not blank, joined by AND, then the order that `sort` names
/// (`gdp_desc` or `gdp_asc`), else none.
pub fn build_list_query(p: &ListParams) -> (r: ListQuery)
    ensures
        r.sql@ == list_sql(*p),
        r.binds@.len() == bound_values(*p).len(),
        forall|i: int| 0 <= i < r.binds@.len() ==> (#[trigger] r.binds@[i])@ == bound_values(*p)[i],
{
    let mut sql = String::from_str(
        "SELECT id, name, capital, region, population, currency_code, exchange_rate, estimated_gdp, flag_url, last_refreshed_at FROM countries",
    );
    let mut binds: Vec<String> = Vec::new();
    let by_region = active_filter(&p.region);
    let by_currency = active_filter(&p.currency);
    if by_region {
        sql.append(" WHERE ");
        sql.append("region = ?");
        match &p.region {
            Some(v) => binds.push(v.clone()),
            None => {},
        }
    }
    if by_currency {
        if by_region {
            sql.append(" AND ");
        } else {
            sql.append(" WHERE ");
        }
        sql.append("currency_code = ?");
        match &p.currency {
            Some(v) => binds.push(v.clone()),
            None => {},
        }
    }
    match &p.sort {
        Some(s) => {
            if *s == String::from_str("gdp_desc") {
                sql.append(" ORDER BY estimated_gdp DESC");
            } else if *s == String::from_str("gdp_asc") {
                sql.append(" ORDER BY estimated_gdp ASC");
            }
        },
        None => {},
    }
    proof {
        let c = conditions(*p);
        if by_region && by_currency {
            assert(c =~= seq!["region = ?"@, "currency_code = ?"@]);
        } else if by_region {
            assert(c =~= seq!["region = ?"@]);
        } else if by_currency {
            assert(c =~= seq!["currency_code = ?"@]);
        } else {
            assert(c =~= Seq::<Seq<char>>::empty());
        }
        assert(sql@ =~= list_sql(*p));
    }
    ListQuery { sql, binds }
}

} // verus!
