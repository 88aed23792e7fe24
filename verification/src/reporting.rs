//! Reporting: generated reports, the performance figures of participants,
//! and the latest overview of the supply chain. The figures of the reports
//! are fixed samples.

use crate::codec::{
    copy_pairs, copy_texts, field_flag, field_number, field_text, field_texts, field_views,
    flag_field, flag_of, frame_fields, number_field, number_of, text_bytes, text_of, texts_field,
    texts_of, unframe, unframe_fields, unzip_texts, zip_texts, zipped,
};
use crate::error::LedgerError;
use crate::identity::{Identity, MAX_IDENTITY_BYTES, copy_bytes, principal_of_text, principal_text};
use crate::regions::StableRegions;
use crate::store::{KeyedRegion, KeyedStore};
use crate::table::{Stored, Table, keep_listed, lists_table, lists_where, record_views};
use crate::text::{decimal, decimal_text, generate_id, record_id};
use vstd::prelude::*;
use vstd::string::*;
use vstd::utf8::*;

verus! {

/// A generated report.
#[derive(Debug)]
pub struct Report {
    pub id: String,
    pub title: String,
    pub report_type: String,
    pub generated_by: Identity,
    pub created_at: u64,
    /// The figures of the report, as pairs of name and value.
    pub data: Vec<(String, String)>,
    pub summary: String,
    pub period_start: u64,
    pub period_end: u64,
    pub is_public: bool,
}

/// A [`Report`] as a mathematical value.
pub struct ReportView {
    pub id: Seq<char>,
    pub title: Seq<char>,
    pub report_type: Seq<char>,
    pub generated_by: Seq<u8>,
    pub created_at: u64,
    pub data: Seq<(Seq<char>, Seq<char>)>,
    pub summary: Seq<char>,
    pub period_start: u64,
    pub period_end: u64,
    pub is_public: bool,
}

impl View for Report {
    type V = ReportView;

    open spec fn view(&self) -> ReportView {
        ReportView {
            id: self.id@,
            title: self.title@,
            report_type: self.report_type@,
            generated_by: self.generated_by@,
            created_at: self.created_at,
            data: self.data.deep_view(),
            summary: self.summary@,
            period_start: self.period_start,
            period_end: self.period_end,
            is_public: self.is_public,
        }
    }
}

/// The performance figures of a participant. The three measures are the
/// bit patterns of double-precision numbers, carried as given.
#[derive(Debug)]
pub struct PerformanceMetrics {
    pub user_id: Identity,
    pub total_transactions: u32,
    pub successful_transactions: u32,
    pub failed_transactions: u32,
    pub average_delivery_time_bits: u64,
    pub customer_satisfaction_bits: u64,
    pub reliability_score_bits: u64,
    pub last_updated: u64,
}

/// A [`PerformanceMetrics`] as a mathematical value.
pub struct MetricsView {
    pub user_id: Seq<u8>,
    pub total_transactions: u32,
    pub successful_transactions: u32,
    pub failed_transactions: u32,
    pub average_delivery_time_bits: u64,
    pub customer_satisfaction_bits: u64,
    pub reliability_score_bits: u64,
    pub last_updated: u64,
}

impl View for PerformanceMetrics {
    type V = MetricsView;

    open spec fn view(&self) -> MetricsView {
        MetricsView {
            user_id: self.user_id@,
            total_transactions: self.total_transactions,
            successful_transactions: self.successful_transactions,
            failed_transactions: self.failed_transactions,
            average_delivery_time_bits: self.average_delivery_time_bits,
            customer_satisfaction_bits: self.customer_satisfaction_bits,
            reliability_score_bits: self.reliability_score_bits,
            last_updated: self.last_updated,
        }
    }
}

/// An overview of the supply chain. The transit time is the bit pattern
/// of a double-precision number.
#[derive(Debug)]
pub struct SupplyChainAnalytics {
    pub total_products: u32,
    pub products_in_transit: u32,
    pub products_delivered: u32,
    pub products_lost_damaged: u32,
    pub average_transit_time_bits: u64,
    pub top_performers: Vec<Identity>,
    pub bottlenecks: Vec<String>,
    pub generated_at: u64,
}

/// A [`SupplyChainAnalytics`] as a mathematical value.
pub struct AnalyticsView {
    pub total_products: u32,
    pub products_in_transit: u32,
    pub products_delivered: u32,
    pub products_lost_damaged: u32,
    pub average_transit_time_bits: u64,
    pub top_performers: Seq<Seq<u8>>,
    pub bottlenecks: Seq<Seq<char>>,
    pub generated_at: u64,
}

/// The bytes of a list of identities.
pub open spec fn identity_views(list: Seq<Identity>) -> Seq<Seq<u8>> {
    Seq::new(list.len(), |i: int| list[i]@)
}

impl View for SupplyChainAnalytics {
    type V = AnalyticsView;

    open spec fn view(&self) -> AnalyticsView {
        AnalyticsView {
            total_products: self.total_products,
            products_in_transit: self.products_in_transit,
            products_delivered: self.products_delivered,
            products_lost_damaged: self.products_lost_damaged,
            average_transit_time_bits: self.average_transit_time_bits,
            top_performers: identity_views(self.top_performers@),
            bottlenecks: self.bottlenecks.deep_view(),
            generated_at: self.generated_at,
        }
    }
}

/// The number of fields of a stored report.
pub const REPORT_FIELDS: usize = 11;

/// The number of fields of stored performance figures.
pub const METRICS_FIELDS: usize = 8;

/// The number of fields of a stored overview.
pub const ANALYTICS_FIELDS: usize = 8;

/// The key under which the record with this id is kept.
pub open spec fn report_key(id: Seq<char>) -> Seq<u8> {
    encode_utf8(id)
}

/// The report that a list of fields holds, if it holds one.
pub open spec fn report_of_fields(fields: Seq<Seq<u8>>) -> Option<ReportView> {
    if fields.len() == REPORT_FIELDS && text_of(fields[0]) is Some && text_of(fields[1]) is Some
        && text_of(fields[2]) is Some && fields[3].len() <= MAX_IDENTITY_BYTES && number_of(
        fields[4],
    ) is Some && texts_of(fields[5]) is Some && texts_of(fields[6]) is Some && texts_of(
        fields[5],
    )->0.len() == texts_of(fields[6])->0.len() && text_of(fields[7]) is Some && number_of(
        fields[8],
    ) is Some && number_of(fields[9]) is Some && flag_of(fields[10]) is Some {
        Some(
            ReportView {
                id: text_of(fields[0])->0,
                title: text_of(fields[1])->0,
                report_type: text_of(fields[2])->0,
                generated_by: fields[3],
                created_at: number_of(fields[4])->0,
                data: zipped(texts_of(fields[5])->0, texts_of(fields[6])->0),
                summary: text_of(fields[7])->0,
                period_start: number_of(fields[8])->0,
                period_end: number_of(fields[9])->0,
                is_public: flag_of(fields[10])->0,
            },
        )
    } else {
        None
    }
}

/// The report that a stored record holds, if it holds one.
pub open spec fn decode_report(bytes: Seq<u8>) -> Option<ReportView> {
    match unframe(bytes) {
        Some(fields) => report_of_fields(fields),
        None => None,
    }
}

/// The number below 2^32 that a field holds.
pub open spec fn count_of(field: Seq<u8>) -> Option<u32> {
    if number_of(field) is Some && number_of(field)->0 <= u32::MAX {
        Some(number_of(field)->0 as u32)
    } else {
        None
    }
}

/// Reads the number below 2^32 that a field holds.
pub fn field_count(field: &Vec<u8>) -> (count: Option<u32>)
    ensures
        count == count_of(field@),
{
    let number = field_number(field)?;
    if number > u32::MAX as u64 {
        None
    } else {
        Some(number as u32)
    }
}

/// The performance figures that a list of fields holds, if it holds them.
pub open spec fn metrics_of_fields(fields: Seq<Seq<u8>>) -> Option<MetricsView> {
    if fields.len() == METRICS_FIELDS && fields[0].len() <= MAX_IDENTITY_BYTES && count_of(
        fields[1],
    ) is Some && count_of(fields[2]) is Some && count_of(fields[3]) is Some && number_of(
        fields[4],
    ) is Some && number_of(fields[5]) is Some && number_of(fields[6]) is Some && number_of(
        fields[7],
    ) is Some {
        Some(
            MetricsView {
                user_id: fields[0],
                total_transactions: count_of(fields[1])->0,
                successful_transactions: count_of(fields[2])->0,
                failed_transactions: count_of(fields[3])->0,
                average_delivery_time_bits: number_of(fields[4])->0,
                customer_satisfaction_bits: number_of(fields[5])->0,
                reliability_score_bits: number_of(fields[6])->0,
                last_updated: number_of(fields[7])->0,
            },
        )
    } else {
        None
    }
}

/// The performance figures that a stored record holds, if it holds them.
pub open spec fn decode_metrics(bytes: Seq<u8>) -> Option<MetricsView> {
    match unframe(bytes) {
        Some(fields) => metrics_of_fields(fields),
        None => None,
    }
}

/// The list of identities that a field holds, as a framed list.
pub open spec fn identities_of(field: Seq<u8>) -> Option<Seq<Seq<u8>>> {
    match unframe(field) {
        Some(items) => if forall|i: int|
            0 <= i < items.len() ==> (#[trigger] items[i]).len() <= MAX_IDENTITY_BYTES {
            Some(items)
        } else {
            None
        },
        None => None,
    }
}

/// The field that holds a list of identities.
pub fn identities_field(list: &Vec<Identity>) -> (field: Vec<u8>)
    ensures
        identities_of(field@) == Some(identity_views(list@)),
{
    let mut items: Vec<Vec<u8>> = Vec::new();
    let mut i: usize = 0;
    while i < list.len()
        invariant
            i <= list@.len(),
            items@.len() == i,
            forall|j: int|
                0 <= j < i ==> (#[trigger] items@[j])@ == list@[j]@ && items@[j]@.len()
                    <= MAX_IDENTITY_BYTES,
        decreases list@.len() - i,
    {
        items.push(copy_bytes(list[i].as_bytes()));
        i += 1;
    }
    let field = frame_fields(&items);
    assert(field_views(items@) =~= identity_views(list@));
    field
}

/// Reads the list of identities that a field holds.
pub fn field_identities(field: &Vec<u8>) -> (list: Option<Vec<Identity>>)
    ensures
        match list {
            Some(l) => identities_of(field@) == Some(identity_views(l@)),
            None => identities_of(field@) is None,
        },
{
    let items = unframe_fields(field)?;
    let ghost views = field_views(items@);
    let mut out: Vec<Identity> = Vec::new();
    let mut i: usize = 0;
    while i < items.len()
        invariant
            i <= items@.len(),
            out@.len() == i,
            views == field_views(items@),
            unframe(field@) == Some(views),
            forall|j: int| 0 <= j < i ==> (#[trigger] views[j]).len() <= MAX_IDENTITY_BYTES,
            forall|j: int| 0 <= j < i ==> (#[trigger] out@[j])@ == views[j],
        decreases items@.len() - i,
    {
        match Identity::from_bytes(copy_bytes(&items[i])) {
            Some(identity) => {
                out.push(identity);
            },
            None => {
                assert(views[i as int].len() > MAX_IDENTITY_BYTES);
                return None;
            },
        }
        i += 1;
    }
    assert(identity_views(out@) =~= views);
    Some(out)
}

/// The overview that a list of fields holds, if it holds one.
pub open spec fn analytics_of_fields(fields: Seq<Seq<u8>>) -> Option<AnalyticsView> {
    if fields.len() == ANALYTICS_FIELDS && count_of(fields[0]) is Some && count_of(
        fields[1],
    ) is Some && count_of(fields[2]) is Some && count_of(fields[3]) is Some && number_of(
        fields[4],
    ) is Some && identities_of(fields[5]) is Some && texts_of(fields[6]) is Some && number_of(
        fields[7],
    ) is Some {
        Some(
            AnalyticsView {
                total_products: count_of(fields[0])->0,
                products_in_transit: count_of(fields[1])->0,
                products_delivered: count_of(fields[2])->0,
                products_lost_damaged: count_of(fields[3])->0,
                average_transit_time_bits: number_of(fields[4])->0,
                top_performers: identities_of(fields[5])->0,
                bottlenecks: texts_of(fields[6])->0,
                generated_at: number_of(fields[7])->0,
            },
        )
    } else {
        None
    }
}

/// The overview that a stored record holds, if it holds one.
pub open spec fn decode_analytics(bytes: Seq<u8>) -> Option<AnalyticsView> {
    match unframe(bytes) {
        Some(fields) => analytics_of_fields(fields),
        None => None,
    }
}

impl Stored for Report {
    open spec fn decode(bytes: Seq<u8>) -> Option<ReportView> {
        decode_report(bytes)
    }

    open spec fn key_of(record: ReportView) -> Seq<u8> {
        report_key(record.id)
    }

    fn to_bytes(&self) -> (bytes: Vec<u8>) {
        let (names, values) = unzip_texts(&self.data);
        let mut fields: Vec<Vec<u8>> = Vec::new();
        fields.push(text_bytes(&self.id));
        fields.push(text_bytes(&self.title));
        fields.push(text_bytes(&self.report_type));
        fields.push(copy_bytes(self.generated_by.as_bytes()));
        fields.push(number_field(self.created_at));
        fields.push(texts_field(&names));
        fields.push(texts_field(&values));
        fields.push(text_bytes(&self.summary));
        fields.push(number_field(self.period_start));
        fields.push(number_field(self.period_end));
        fields.push(flag_field(self.is_public));
        let bytes = frame_fields(&fields);
        proof {
            let views = field_views(fields@);
            assert(report_of_fields(views) == Some(self@));
        }
        bytes
    }

    fn from_bytes(bytes: &Vec<u8>) -> (record: Option<Report>) {
        let fields = unframe_fields(bytes)?;
        let ghost views = field_views(fields@);
        if fields.len() != REPORT_FIELDS {
            return None;
        }
        assert(forall|i: int| 0 <= i < 11 ==> views[i] == (#[trigger] fields@[i])@);
        let id = field_text(&fields[0])?;
        let title = field_text(&fields[1])?;
        let report_type = field_text(&fields[2])?;
        let generated_by = Identity::from_bytes(copy_bytes(&fields[3]))?;
        let created_at = field_number(&fields[4])?;
        let names = field_texts(&fields[5])?;
        let values = field_texts(&fields[6])?;
        if names.len() != values.len() {
            return None;
        }
        let summary = field_text(&fields[7])?;
        let period_start = field_number(&fields[8])?;
        let period_end = field_number(&fields[9])?;
        let is_public = field_flag(&fields[10])?;
        let data = zip_texts(&names, &values);
        Some(
            Report {
                id,
                title,
                report_type,
                generated_by,
                created_at,
                data,
                summary,
                period_start,
                period_end,
                is_public,
            },
        )
    }

    fn key(&self) -> (key: Vec<u8>) {
        text_bytes(&self.id)
    }
}

impl Stored for PerformanceMetrics {
    open spec fn decode(bytes: Seq<u8>) -> Option<MetricsView> {
        decode_metrics(bytes)
    }

    open spec fn key_of(record: MetricsView) -> Seq<u8> {
        record.user_id
    }

    fn to_bytes(&self) -> (bytes: Vec<u8>) {
        let mut fields: Vec<Vec<u8>> = Vec::new();
        fields.push(copy_bytes(self.user_id.as_bytes()));
        fields.push(number_field(self.total_transactions as u64));
        fields.push(number_field(self.successful_transactions as u64));
        fields.push(number_field(self.failed_transactions as u64));
        fields.push(number_field(self.average_delivery_time_bits));
        fields.push(number_field(self.customer_satisfaction_bits));
        fields.push(number_field(self.reliability_score_bits));
        fields.push(number_field(self.last_updated));
        let bytes = frame_fields(&fields);
        proof {
            let views = field_views(fields@);
            assert(metrics_of_fields(views) == Some(self@));
        }
        bytes
    }

    fn from_bytes(bytes: &Vec<u8>) -> (record: Option<PerformanceMetrics>) {
        let fields = unframe_fields(bytes)?;
        let ghost views = field_views(fields@);
        if fields.len() != METRICS_FIELDS {
            return None;
        }
        assert(forall|i: int| 0 <= i < 8 ==> views[i] == (#[trigger] fields@[i])@);
        let user_id = Identity::from_bytes(copy_bytes(&fields[0]))?;
        let total_transactions = field_count(&fields[1])?;
        let successful_transactions = field_count(&fields[2])?;
        let failed_transactions = field_count(&fields[3])?;
        let average_delivery_time_bits = field_number(&fields[4])?;
        let customer_satisfaction_bits = field_number(&fields[5])?;
        let reliability_score_bits = field_number(&fields[6])?;
        let last_updated = field_number(&fields[7])?;
        Some(
            PerformanceMetrics {
                user_id,
                total_transactions,
                successful_transactions,
                failed_transactions,
                average_delivery_time_bits,
                customer_satisfaction_bits,
                reliability_score_bits,
                last_updated,
            },
        )
    }

    fn key(&self) -> (key: Vec<u8>) {
        copy_bytes(self.user_id.as_bytes())
    }
}

/// The key under which the latest overview is kept.
pub open spec fn latest_key() -> Seq<u8> {
    encode_utf8("latest"@)
}

impl Stored for SupplyChainAnalytics {
    open spec fn decode(bytes: Seq<u8>) -> Option<AnalyticsView> {
        decode_analytics(bytes)
    }

    open spec fn key_of(record: AnalyticsView) -> Seq<u8> {
        latest_key()
    }

    fn to_bytes(&self) -> (bytes: Vec<u8>) {
        let mut fields: Vec<Vec<u8>> = Vec::new();
        fields.push(number_field(self.total_products as u64));
        fields.push(number_field(self.products_in_transit as u64));
        fields.push(number_field(self.products_delivered as u64));
        fields.push(number_field(self.products_lost_damaged as u64));
        fields.push(number_field(self.average_transit_time_bits));
        fields.push(identities_field(&self.top_performers));
        fields.push(texts_field(&self.bottlenecks));
        fields.push(number_field(self.generated_at));
        let bytes = frame_fields(&fields);
        proof {
            let views = field_views(fields@);
            assert(analytics_of_fields(views) == Some(self@));
        }
        bytes
    }

    fn from_bytes(bytes: &Vec<u8>) -> (record: Option<SupplyChainAnalytics>) {
        let fields = unframe_fields(bytes)?;
        let ghost views = field_views(fields@);
        if fields.len() != ANALYTICS_FIELDS {
            return None;
        }
        assert(forall|i: int| 0 <= i < 8 ==> views[i] == (#[trigger] fields@[i])@);
        let total_products = field_count(&fields[0])?;
        let products_in_transit = field_count(&fields[1])?;
        let products_delivered = field_count(&fields[2])?;
        let products_lost_damaged = field_count(&fields[3])?;
        let average_transit_time_bits = field_number(&fields[4])?;
        let top_performers = field_identities(&fields[5])?;
        let bottlenecks = field_texts(&fields[6])?;
        let generated_at = field_number(&fields[7])?;
        Some(
            SupplyChainAnalytics {
                total_products,
                products_in_transit,
                products_delivered,
                products_lost_damaged,
                average_transit_time_bits,
                top_performers,
                bottlenecks,
                generated_at,
            },
        )
    }

    fn key(&self) -> (key: Vec<u8>) {
        text_bytes(&String::from_str("latest"))
    }
}

/// The sample figures of an overview of the supply chain.
pub open spec fn supply_chain_overview_data() -> Seq<(Seq<char>, Seq<char>)> {
    seq![
        ("total_products"@, "1250"@),
        ("active_suppliers"@, "45"@),
        ("active_transporters"@, "23"@),
        ("active_warehouses"@, "12"@),
        ("active_retailers"@, "89"@),
        ("products_in_transit"@, "156"@),
        ("completed_deliveries"@, "3420"@),
        ("success_rate"@, "94.5%"@),
    ]
}

/// The sample figures of a performance report.
pub open spec fn performance_report_data() -> Seq<(Seq<char>, Seq<char>)> {
    seq![
        ("total_transactions"@, "234"@),
        ("successful_transactions"@, "221"@),
        ("failed_transactions"@, "13"@),
        ("success_rate"@, "94.4%"@),
        ("average_delivery_time"@, "2.3 days"@),
        ("customer_satisfaction"@, "4.7/5"@),
    ]
}

/// The figures of a summary of the transactions of a period: the period
/// and sample figures.
pub open spec fn transaction_summary_data(period_start: u64, period_end: u64) -> Seq<
    (Seq<char>, Seq<char>),
> {
    seq![
        ("period_start"@, decimal(period_start as nat)),
        ("period_end"@, decimal(period_end as nat)),
        ("total_transactions"@, "1847"@),
        ("total_value"@, "$2,456,789"@),
        ("average_transaction_value"@, "$1,330"@),
        ("unique_users"@, "167"@),
    ]
}

/// The sample figures of a report on quality.
pub open spec fn quality_metrics_data() -> Seq<(Seq<char>, Seq<char>)> {
    seq![
        ("products_inspected"@, "456"@),
        ("quality_passed"@, "442"@),
        ("quality_failed"@, "14"@),
        ("quality_rate"@, "96.9%"@),
        ("average_quality_score"@, "4.6/5"@),
        ("defect_rate"@, "3.1%"@),
    ]
}

/// The summary of a performance report about a participant.
pub open spec fn performance_summary(user: Seq<u8>) -> Seq<char> {
    "User "@ + principal_text(user)
        + " has completed 221 successful transactions with 94.4% success rate."@
}

/// The figures of a report of this type.
pub open spec fn report_data(
    report_type: Seq<char>,
    caller: Seq<u8>,
    period_start: u64,
    period_end: u64,
) -> Seq<(Seq<char>, Seq<char>)> {
    if report_type == "SUPPLY_CHAIN_OVERVIEW"@ {
        supply_chain_overview_data()
    } else if report_type == "PERFORMANCE_REPORT"@ {
        performance_report_data()
    } else if report_type == "TRANSACTION_SUMMARY"@ {
        transaction_summary_data(period_start, period_end)
    } else if report_type == "QUALITY_METRICS"@ {
        quality_metrics_data()
    } else {
        Seq::empty()
    }
}

/// The summary of a report of this type.
pub open spec fn report_summary(report_type: Seq<char>, caller: Seq<u8>) -> Seq<char> {
    if report_type == "SUPPLY_CHAIN_OVERVIEW"@ {
        "Supply chain is operating at 94.5% efficiency with 156 products currently in transit."@
    } else if report_type == "PERFORMANCE_REPORT"@ {
        performance_summary(caller)
    } else if report_type == "TRANSACTION_SUMMARY"@ {
        "Transaction summary shows healthy growth with $2.4M in total value processed."@
    } else if report_type == "QUALITY_METRICS"@ {
        "Quality metrics show 96.9% pass rate with an average quality score of 4.6/5."@
    } else {
        "Unknown report type"@
    }
}

/// A pair of two texts.
pub fn pair(name: &str, value: &str) -> (both: (String, String))
    ensures
        both.0@ == name@,
        both.1@ == value@,
{
    (String::from_str(name), String::from_str(value))
}

/// The sample figures and the summary of an overview of the supply chain.
pub fn generate_supply_chain_overview_data() -> (content: (Vec<(String, String)>, String))
    ensures
        content.0.deep_view() == supply_chain_overview_data(),
        content.1@ == report_summary("SUPPLY_CHAIN_OVERVIEW"@, Seq::empty()),
{
    let mut data: Vec<(String, String)> = Vec::new();
    data.push(pair("total_products", "1250"));
    data.push(pair("active_suppliers", "45"));
    data.push(pair("active_transporters", "23"));
    data.push(pair("active_warehouses", "12"));
    data.push(pair("active_retailers", "89"));
    data.push(pair("products_in_transit", "156"));
    data.push(pair("completed_deliveries", "3420"));
    data.push(pair("success_rate", "94.5%"));
    assert(data.deep_view() =~= supply_chain_overview_data());
    let summary = String::from_str(
        "Supply chain is operating at 94.5% efficiency with 156 products currently in transit.",
    );
    (data, summary)
}

/// The sample figures and the summary of a performance report about a
/// participant.
pub fn generate_performance_report_data(user_id: &Identity) -> (content: (
    Vec<(String, String)>,
    String,
))
    ensures
        content.0.deep_view() == performance_report_data(),
        content.1@ == performance_summary(user_id@),
{
    let mut data: Vec<(String, String)> = Vec::new();
    data.push(pair("total_transactions", "234"));
    data.push(pair("successful_transactions", "221"));
    data.push(pair("failed_transactions", "13"));
    data.push(pair("success_rate", "94.4%"));
    data.push(pair("average_delivery_time", "2.3 days"));
    data.push(pair("customer_satisfaction", "4.7/5"));
    assert(data.deep_view() =~= performance_report_data());
    let mut summary = String::from_str("User ");
    let text = user_id.to_text();
    summary.append(text.as_str());
    summary.append(" has completed 221 successful transactions with 94.4% success rate.");
    (data, summary)
}

/// The figures and the summary of a summary of the transactions of a
/// period.
pub fn generate_transaction_summary_data(period_start: u64, period_end: u64) -> (content: (
    Vec<(String, String)>,
    String,
))
    ensures
        content.0.deep_view() == transaction_summary_data(period_start, period_end),
        content.1@ == report_summary("TRANSACTION_SUMMARY"@, Seq::empty()),
{
    proof {
        lemma_report_types_differ();
    }
    let mut data: Vec<(String, String)> = Vec::new();
    data.push((String::from_str("period_start"), decimal_text(period_start)));
    data.push((String::from_str("period_end"), decimal_text(period_end)));
    data.push(pair("total_transactions", "1847"));
    data.push(pair("total_value", "$2,456,789"));
    data.push(pair("average_transaction_value", "$1,330"));
    data.push(pair("unique_users", "167"));
    assert(data.deep_view() =~= transaction_summary_data(period_start, period_end));
    let summary = String::from_str(
        "Transaction summary shows healthy growth with $2.4M in total value processed.",
    );
    (data, summary)
}

/// The sample figures and the summary of a report on quality.
pub fn generate_quality_metrics_data() -> (content: (Vec<(String, String)>, String))
    ensures
        content.0.deep_view() == quality_metrics_data(),
        content.1@ == report_summary("QUALITY_METRICS"@, Seq::empty()),
{
    proof {
        lemma_report_types_differ();
    }
    let mut data: Vec<(String, String)> = Vec::new();
    data.push(pair("products_inspected", "456"));
    data.push(pair("quality_passed", "442"));
    data.push(pair("quality_failed", "14"));
    data.push(pair("quality_rate", "96.9%"));
    data.push(pair("average_quality_score", "4.6/5"));
    data.push(pair("defect_rate", "3.1%"));
    assert(data.deep_view() =~= quality_metrics_data());
    let summary = String::from_str(
        "Quality metrics show 96.9% pass rate with an average quality score of 4.6/5.",
    );
    (data, summary)
}

/// The names of the types of report are four different texts.
pub proof fn lemma_report_types_differ()
    ensures
        "SUPPLY_CHAIN_OVERVIEW"@ != "PERFORMANCE_REPORT"@,
        "SUPPLY_CHAIN_OVERVIEW"@ != "TRANSACTION_SUMMARY"@,
        "SUPPLY_CHAIN_OVERVIEW"@ != "QUALITY_METRICS"@,
        "PERFORMANCE_REPORT"@ != "TRANSACTION_SUMMARY"@,
        "PERFORMANCE_REPORT"@ != "QUALITY_METRICS"@,
        "TRANSACTION_SUMMARY"@ != "QUALITY_METRICS"@,
{
    reveal_strlit("SUPPLY_CHAIN_OVERVIEW");
    reveal_strlit("PERFORMANCE_REPORT");
    reveal_strlit("TRANSACTION_SUMMARY");
    reveal_strlit("QUALITY_METRICS");
    assert("SUPPLY_CHAIN_OVERVIEW"@.len() == 21);
    assert("PERFORMANCE_REPORT"@.len() == 18);
    assert("TRANSACTION_SUMMARY"@.len() == 19);
    assert("QUALITY_METRICS"@.len() == 15);
}

/// The figures and the summary of a report of this type.
pub fn generate_report_content(
    report_type: &String,
    caller: &Identity,
    period_start: u64,
    period_end: u64,
) -> (content: (Vec<(String, String)>, String))
    ensures
        content.0.deep_view() == report_data(report_type@, caller@, period_start, period_end),
        content.1@ == report_summary(report_type@, caller@),
{
    proof {
        lemma_report_types_differ();
    }
    if *report_type == String::from_str("SUPPLY_CHAIN_OVERVIEW") {
        generate_supply_chain_overview_data()
    } else if *report_type == String::from_str("PERFORMANCE_REPORT") {
        generate_performance_report_data(caller)
    } else if *report_type == String::from_str("TRANSACTION_SUMMARY") {
        generate_transaction_summary_data(period_start, period_end)
    } else if *report_type == String::from_str("QUALITY_METRICS") {
        generate_quality_metrics_data()
    } else {
        let data: Vec<(String, String)> = Vec::new();
        assert(data.deep_view() =~= Seq::empty());
        (data, String::from_str("Unknown report type"))
    }
}

/// The bit pattern of the sample transit time, 2.3 days.
pub const SAMPLE_TRANSIT_TIME_BITS: u64 = 0x4002_6666_6666_6666;

/// The identity that a text stands for, as a list of one, or the empty
/// list where the text stands for none.
pub open spec fn named(text: Seq<char>) -> Seq<Seq<u8>> {
    match principal_of_text(text) {
        Some(bytes) => if bytes.len() <= MAX_IDENTITY_BYTES {
            seq![bytes]
        } else {
            Seq::empty()
        },
        None => Seq::empty(),
    }
}

/// The sample overview of the supply chain, taken at the time `now`.
pub open spec fn sample_analytics(now: u64) -> AnalyticsView {
    AnalyticsView {
        total_products: 1250,
        products_in_transit: 156,
        products_delivered: 3420,
        products_lost_damaged: 34,
        average_transit_time_bits: SAMPLE_TRANSIT_TIME_BITS,
        top_performers: named("rdmx6-jaaaa-aaaaa-aaadq-cai"@) + named(
            "rrkah-fqaaa-aaaaa-aaaaq-cai"@,
        ),
        bottlenecks: seq![
            "Warehouse capacity in Region A"@,
            "Transportation delays in Route B"@,
        ],
        generated_at: now,
    }
}

/// The number of regions of stable memory that a reporting lives on.
pub const REPORTING_REGIONS: usize = 3;

/// The generated reports, the performance figures of each participant,
/// and the latest overview.
pub struct Reporting {
    reports: Table<Report>,
    metrics: Table<PerformanceMetrics>,
    analytics: Table<SupplyChainAnalytics>,
}

/// The [`Reporting`] as a mathematical value.
pub struct ReportingView {
    /// The reports, by the key of their id.
    pub reports: Map<Seq<u8>, ReportView>,
    /// The performance figures, by identity.
    pub metrics: Map<Seq<u8>, MetricsView>,
    /// The latest overview, under [`latest_key`], where one was taken.
    pub analytics: Map<Seq<u8>, AnalyticsView>,
}

/// The report that `caller` generates at the time `now`.
pub open spec fn new_report(
    caller: Seq<u8>,
    now: u64,
    title: Seq<char>,
    report_type: Seq<char>,
    period_start: u64,
    period_end: u64,
    is_public: bool,
) -> ReportView {
    ReportView {
        id: record_id(now, caller),
        title,
        report_type,
        generated_by: caller,
        created_at: now,
        data: report_data(report_type, caller, period_start, period_end),
        summary: report_summary(report_type, caller),
        period_start,
        period_end,
        is_public,
    }
}

/// The regions that a reporting has lived on, each with what the reporting has
/// left on it. Only a reporting gives them out, and only
/// [`Reporting::restore`] takes them.
pub struct ReportingRegions {
    reports: KeyedRegion,
    metrics: KeyedRegion,
    analytics: KeyedRegion,
}

impl View for Reporting {
    type V = ReportingView;

    closed spec fn view(&self) -> ReportingView {
        ReportingView {
            reports: self.reports@,
            metrics: self.metrics@,
            analytics: self.analytics@,
        }
    }
}

impl Reporting {
    /// Whether the reporting is sound: each table is.
    pub closed spec fn wf(&self) -> bool {
        &&& self.reports.wf()
        &&& self.metrics.wf()
        &&& self.analytics.wf()
    }

    /// A reporting that holds nothing, on the first [`REPORTING_REGIONS`] of the regions;
    /// it is refused where there are fewer. Its stores are made anew:
    /// what the regions held is given up.
    pub fn new(regions: StableRegions) -> (result: Result<Reporting, LedgerError>)
        ensures
            match result {
                Ok(reporting) => {
                    &&& regions@.len() >= REPORTING_REGIONS
                    &&& reporting.wf()
                    &&& reporting@.reports == Map::<Seq<u8>, ReportView>::empty()
                    &&& reporting@.metrics == Map::<Seq<u8>, MetricsView>::empty()
                    &&& reporting@.analytics == Map::<Seq<u8>, AnalyticsView>::empty()
                },
                Err(e) => e == LedgerError::StorageError && regions@.len() < REPORTING_REGIONS,
            },
    {
        let mut regions = regions;
        if regions.len() < REPORTING_REGIONS {
            return Err(LedgerError::StorageError);
        }
        let reports = Table::new(regions.next());
        let metrics = Table::new(regions.next());
        let analytics = Table::new(regions.next());
        Ok(Reporting { reports, metrics, analytics })
    }

    /// The regions of a reporting whose parts live on these.
    pub closed spec fn regions_of(reports: KeyedRegion, metrics: KeyedRegion, analytics: KeyedRegion) -> ReportingRegions {
        ReportingRegions { reports, metrics, analytics }
    }

    /// The regions that the reporting lives on.
    pub closed spec fn regions(&self) -> ReportingRegions {
        Reporting::regions_of(self.reports.region(), self.metrics.region(), self.analytics.region())
    }

    /// Gives up the reporting and hands back the regions that hold it, from
    /// which `restore` reads it again.
    pub fn into_regions(self) -> (regions: ReportingRegions)
        ensures
            regions == self.regions(),
    {
        ReportingRegions {
            reports: self.reports.into_region(),
            metrics: self.metrics.into_region(),
            analytics: self.analytics.into_region(),
        }
    }

    /// The reporting that the regions hold, as the reporting that gave them out
    /// has left it there. Every stored record is read and checked: where
    /// one is not sound, nothing is accepted and the error says so. What is
    /// accepted lives on the regions. What the regions hold is not known
    /// here: `from_store` of
    /// each table says what comes of each content.
    pub fn restore(regions: ReportingRegions) -> (result: Result<Reporting, LedgerError>)
        ensures
            match result {
                Ok(reporting) => reporting.wf() && reporting.regions() == regions,
                Err(e) => e == LedgerError::StorageError,
            },
    {
        let reports = match Table::restore(regions.reports) {
            Some(table) => table,
            None => {
                return Err(LedgerError::StorageError);
            },
        };
        let metrics = match Table::restore(regions.metrics) {
            Some(table) => table,
            None => {
                return Err(LedgerError::StorageError);
            },
        };
        let analytics = match Table::restore(regions.analytics) {
            Some(table) => table,
            None => {
                return Err(LedgerError::StorageError);
            },
        };
        Ok(Reporting { reports, metrics, analytics })
    }

    /// The reporting that the first [`REPORTING_REGIONS`] of the regions hold, as
    /// the program has found them: what an earlier run of the program has
    /// left there, or nothing. Every stored record is read and checked:
    /// where one is not sound, or the regions are too few, nothing is
    /// accepted and the error says so. What the regions hold is not known
    /// here: `from_store` of
    /// each table says what comes of each content.
    pub fn load(regions: StableRegions) -> (result: Result<Reporting, LedgerError>)
        ensures
            match result {
                Ok(reporting) => regions@.len() >= REPORTING_REGIONS && reporting.wf(),
                Err(e) => e == LedgerError::StorageError,
            },
    {
        let mut regions = regions;
        if regions.len() < REPORTING_REGIONS {
            return Err(LedgerError::StorageError);
        }
        let reports = match Table::from_store(KeyedStore::open(regions.next())) {
            Some(table) => table,
            None => {
                return Err(LedgerError::StorageError);
            },
        };
        let metrics = match Table::from_store(KeyedStore::open(regions.next())) {
            Some(table) => table,
            None => {
                return Err(LedgerError::StorageError);
            },
        };
        let analytics = match Table::from_store(KeyedStore::open(regions.next())) {
            Some(table) => table,
            None => {
                return Err(LedgerError::StorageError);
            },
        };
        Ok(Reporting { reports, metrics, analytics })
    }

    /// Generates a report of the given type and keeps it. The report gets
    /// the id that `generate_id` gives for the caller and the time, and
    /// takes the place of a report that had this id.
    pub fn generate_report(
        &mut self,
        caller: &Identity,
        now: u64,
        title: String,
        report_type: String,
        period_start: u64,
        period_end: u64,
        is_public: bool,
    ) -> (report: Report)
        requires
            old(self).wf(),
        ensures
            final(self).wf(),
            report@ == new_report(
                caller@,
                now,
                title@,
                report_type@,
                period_start,
                period_end,
                is_public,
            ),
            final(self)@ == (ReportingView {
                reports: old(self)@.reports.insert(report_key(report@.id), report@),
                ..old(self)@
            }),
    {
        let (data, summary) = generate_report_content(
            &report_type,
            caller,
            period_start,
            period_end,
        );
        let report = Report {
            id: generate_id(now, caller),
            title,
            report_type,
            generated_by: caller.clone(),
            created_at: now,
            data,
            summary,
            period_start,
            period_end,
            is_public,
        };
        self.reports.put(&report);
        report
    }

    /// Keeps the performance figures of a participant, in place of the
    /// ones that were kept.
    pub fn update_performance_metrics(
        &mut self,
        user_id: Identity,
        now: u64,
        total_transactions: u32,
        successful_transactions: u32,
        failed_transactions: u32,
        average_delivery_time_bits: u64,
        customer_satisfaction_bits: u64,
        reliability_score_bits: u64,
    ) -> (metrics: PerformanceMetrics)
        requires
            old(self).wf(),
        ensures
            final(self).wf(),
            metrics@ == (MetricsView {
                user_id: user_id@,
                total_transactions,
                successful_transactions,
                failed_transactions,
                average_delivery_time_bits,
                customer_satisfaction_bits,
                reliability_score_bits,
                last_updated: now,
            }),
            final(self)@ == (ReportingView {
                metrics: old(self)@.metrics.insert(user_id@, metrics@),
                ..old(self)@
            }),
    {
        let metrics = PerformanceMetrics {
            user_id,
            total_transactions,
            successful_transactions,
            failed_transactions,
            average_delivery_time_bits,
            customer_satisfaction_bits,
            reliability_score_bits,
            last_updated: now,
        };
        self.metrics.put(&metrics);
        metrics
    }

    /// Takes the sample overview at the time `now` and keeps it as the
    /// latest.
    pub fn generate_analytics(&mut self, now: u64) -> (analytics: SupplyChainAnalytics)
        requires
            old(self).wf(),
        ensures
            final(self).wf(),
            analytics@ == sample_analytics(now),
            final(self)@ == (ReportingView {
                analytics: old(self)@.analytics.insert(latest_key(), analytics@),
                ..old(self)@
            }),
    {
        let mut top_performers: Vec<Identity> = Vec::new();
        if let Some(first) = Identity::from_text("rdmx6-jaaaa-aaaaa-aaadq-cai") {
            top_performers.push(first);
        }
        assert(identity_views(top_performers@) =~= named("rdmx6-jaaaa-aaaaa-aaadq-cai"@));
        if let Some(second) = Identity::from_text("rrkah-fqaaa-aaaaa-aaaaq-cai") {
            top_performers.push(second);
        }
        assert(identity_views(top_performers@) =~= named("rdmx6-jaaaa-aaaaa-aaadq-cai"@) + named(
            "rrkah-fqaaa-aaaaa-aaaaq-cai"@,
        ));
        let mut bottlenecks: Vec<String> = Vec::new();
        bottlenecks.push(String::from_str("Warehouse capacity in Region A"));
        bottlenecks.push(String::from_str("Transportation delays in Route B"));
        assert(bottlenecks.deep_view() =~= sample_analytics(now).bottlenecks);
        let analytics = SupplyChainAnalytics {
            total_products: 1250,
            products_in_transit: 156,
            products_delivered: 3420,
            products_lost_damaged: 34,
            average_transit_time_bits: SAMPLE_TRANSIT_TIME_BITS,
            top_performers,
            bottlenecks,
            generated_at: now,
        };
        self.analytics.put(&analytics);
        analytics
    }

    /// The report with this id.
    pub fn get_report(&self, report_id: &String) -> (result: Result<Report, LedgerError>)
        requires
            self.wf(),
        ensures
            match result {
                Ok(report) => self@.reports.contains_key(report_key(report_id@)) && report@
                    == self@.reports[report_key(report_id@)],
                Err(e) => e == LedgerError::NotFound && !self@.reports.contains_key(
                    report_key(report_id@),
                ),
            },
    {
        let key = text_bytes(report_id);
        match self.reports.get(&key) {
            Some(report) => Ok(report),
            None => Err(LedgerError::NotFound),
        }
    }

    /// The reports that `user` has generated, in ascending order of the
    /// keys of their ids.
    pub fn get_reports_by_user(&self, user_id: &Identity) -> (reports: Vec<Report>)
        requires
            self.wf(),
        ensures
            lists_where::<Report>(
                self@.reports,
                |r: ReportView| r.generated_by == user_id@,
                record_views(reports@),
            ),
    {
        let all = self.reports.list();
        let mut marks: Vec<bool> = Vec::new();
        let mut i: usize = 0;
        while i < all.len()
            invariant
                i <= all@.len(),
                marks@.len() == i,
                forall|j: int|
                    0 <= j < i ==> marks@[j] == ((#[trigger] all@[j])@.generated_by == user_id@),
            decreases all@.len() - i,
        {
            marks.push(all[i].generated_by.same(user_id));
            i += 1;
        }
        keep_listed(
            all,
            &marks,
            Ghost(self@.reports),
            Ghost(|r: ReportView| r.generated_by == user_id@),
        )
    }

    /// The reports that are public, in ascending order of the keys of
    /// their ids.
    pub fn get_public_reports(&self) -> (reports: Vec<Report>)
        requires
            self.wf(),
        ensures
            lists_where::<Report>(
                self@.reports,
                |r: ReportView| r.is_public,
                record_views(reports@),
            ),
    {
        let all = self.reports.list();
        let mut marks: Vec<bool> = Vec::new();
        let mut i: usize = 0;
        while i < all.len()
            invariant
                i <= all@.len(),
                marks@.len() == i,
                forall|j: int| 0 <= j < i ==> marks@[j] == (#[trigger] all@[j])@.is_public,
            decreases all@.len() - i,
        {
            marks.push(all[i].is_public);
            i += 1;
        }
        keep_listed(all, &marks, Ghost(self@.reports), Ghost(|r: ReportView| r.is_public))
    }

    /// The reports of this type, in ascending order of the keys of their
    /// ids.
    pub fn get_reports_by_type(&self, report_type: &String) -> (reports: Vec<Report>)
        requires
            self.wf(),
        ensures
            lists_where::<Report>(
                self@.reports,
                |r: ReportView| r.report_type == report_type@,
                record_views(reports@),
            ),
    {
        let all = self.reports.list();
        let mut marks: Vec<bool> = Vec::new();
        let mut i: usize = 0;
        while i < all.len()
            invariant
                i <= all@.len(),
                marks@.len() == i,
                forall|j: int|
                    0 <= j < i ==> marks@[j] == ((#[trigger] all@[j])@.report_type
                        == report_type@),
            decreases all@.len() - i,
        {
            marks.push(all[i].report_type == *report_type);
            i += 1;
        }
        keep_listed(
            all,
            &marks,
            Ghost(self@.reports),
            Ghost(|r: ReportView| r.report_type == report_type@),
        )
    }

    /// The performance figures of a participant.
    pub fn get_performance_metrics(&self, user_id: &Identity) -> (result: Result<
        PerformanceMetrics,
        LedgerError,
    >)
        requires
            self.wf(),
        ensures
            match result {
                Ok(metrics) => self@.metrics.contains_key(user_id@) && metrics@
                    == self@.metrics[user_id@],
                Err(e) => e == LedgerError::NotFound && !self@.metrics.contains_key(user_id@),
            },
    {
        let key = copy_bytes(user_id.as_bytes());
        match self.metrics.get(&key) {
            Some(metrics) => Ok(metrics),
            None => Err(LedgerError::NotFound),
        }
    }

    /// The performance figures of every participant, in ascending order
    /// of the identities.
    pub fn get_all_performance_metrics(&self) -> (metrics: Vec<PerformanceMetrics>)
        requires
            self.wf(),
        ensures
            lists_table::<PerformanceMetrics>(self@.metrics, record_views(metrics@)),
    {
        self.metrics.list()
    }

    /// The latest overview.
    pub fn get_latest_analytics(&self) -> (result: Result<SupplyChainAnalytics, LedgerError>)
        requires
            self.wf(),
        ensures
            match result {
                Ok(analytics) => self@.analytics.contains_key(latest_key()) && analytics@
                    == self@.analytics[latest_key()],
                Err(e) => e == LedgerError::NotFound && !self@.analytics.contains_key(
                    latest_key(),
                ),
            },
    {
        let key = text_bytes(&String::from_str("latest"));
        match self.analytics.get(&key) {
            Some(analytics) => Ok(analytics),
            None => Err(LedgerError::NotFound),
        }
    }
}

impl Clone for Report {
    fn clone(&self) -> (copy: Report)
        ensures
            copy@ == self@,
    {
        Report {
            id: self.id.clone(),
            title: self.title.clone(),
            report_type: self.report_type.clone(),
            generated_by: self.generated_by.clone(),
            created_at: self.created_at,
            data: copy_pairs(&self.data),
            summary: self.summary.clone(),
            period_start: self.period_start,
            period_end: self.period_end,
            is_public: self.is_public,
        }
    }
}

impl Clone for PerformanceMetrics {
    fn clone(&self) -> (copy: PerformanceMetrics)
        ensures
            copy@ == self@,
    {
        PerformanceMetrics {
            user_id: self.user_id.clone(),
            total_transactions: self.total_transactions,
            successful_transactions: self.successful_transactions,
            failed_transactions: self.failed_transactions,
            average_delivery_time_bits: self.average_delivery_time_bits,
            customer_satisfaction_bits: self.customer_satisfaction_bits,
            reliability_score_bits: self.reliability_score_bits,
            last_updated: self.last_updated,
        }
    }
}

impl Clone for SupplyChainAnalytics {
    fn clone(&self) -> (copy: SupplyChainAnalytics)
        ensures
            copy@ == self@,
    {
        let mut performers: Vec<Identity> = Vec::new();
        let mut i: usize = 0;
        while i < self.top_performers.len()
            invariant
                i <= self.top_performers@.len(),
                performers@.len() == i,
                forall|k: int|
                    0 <= k < i ==> (#[trigger] performers@[k])@ == self.top_performers@[k]@,
            decreases self.top_performers@.len() - i,
        {
            performers.push(self.top_performers[i].clone());
            i += 1;
        }
        assert(identity_views(performers@) =~= identity_views(self.top_performers@));
        SupplyChainAnalytics {
            total_products: self.total_products,
            products_in_transit: self.products_in_transit,
            products_delivered: self.products_delivered,
            products_lost_damaged: self.products_lost_damaged,
            average_transit_time_bits: self.average_transit_time_bits,
            top_performers: performers,
            bottlenecks: copy_texts(&self.bottlenecks),
            generated_at: self.generated_at,
        }
    }
}

} // verus!
