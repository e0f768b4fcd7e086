//! The measurements of the benchmarks and the CSV records that report them.
use vstd::prelude::*;
use vstd::string::StringExecFns;

verus! {

/// The character of the decimal digit `d`.
pub open spec fn digit_char(d: nat) -> char {
    (48 + d) as char
}

/// The decimal writing of `n`, without leading zeros.
pub open spec fn decimal(n: nat) -> Seq<char>
    decreases n,
{
    if n < 10 {
        seq![digit_char(n)]
    } else {
        decimal(n / 10) + seq![digit_char(n % 10)]
    }
}

/// The fields of a record, separated by commas.
pub open spec fn csv_line(fields: Seq<Seq<char>>) -> Seq<char>
    decreases fields.len(),
{
    if fields.len() == 0 {
        seq![]
    } else if fields.len() == 1 {
        fields[0]
    } else {
        csv_line(fields.drop_last()) + seq![','] + fields.last()
    }
}

/// The number written by the decimal digits `s`.
pub open spec fn decimal_value(s: Seq<char>) -> nat
    decreases s.len(),
{
    if s.len() == 0 {
        0
    } else {
        decimal_value(s.drop_last()) * 10 + ((s.last() as int - 48) as nat)
    }
}

/// A decimal writing reads back as the number it was written from, and
/// holds digits only, so no comma.
pub proof fn law_decimal_reads_back(n: nat)
    ensures
        decimal_value(decimal(n)) == n,
        forall|i: int| 0 <= i < decimal(n).len() ==> '0' <= #[trigger] decimal(n)[i] <= '9',
    decreases n,
{
    let k = n % 10;
    assert(digit_char(k) as int == 48 + k);
    if n >= 10 {
        law_decimal_reads_back(n / 10);
        let d = decimal(n);
        assert(d.drop_last() =~= decimal(n / 10));
        assert(d.last() == digit_char(k));
        assert(decimal_value(d) == decimal_value(decimal(n / 10)) * 10 + k);
        assert((n / 10) * 10 + n % 10 == n);
        assert(decimal_value(d) == n);
        assert forall|i: int| 0 <= i < d.len() implies '0' <= #[trigger] d[i] <= '9' by {
            if i < d.len() - 1 {
                assert(d[i] == decimal(n / 10)[i]);
            }
        }
    } else {
        assert(decimal(n).drop_last() =~= Seq::<char>::empty());
        assert(decimal(n).last() == digit_char(n));
        assert(decimal_value(decimal(n).drop_last()) == 0);
        assert(decimal_value(decimal(n)) == n);
    }
}

/// The position of the last comma of `s`, if it has one.
pub open spec fn last_comma(s: Seq<char>) -> Option<nat>
    decreases s.len(),
{
    if s.len() == 0 {
        None
    } else if s.last() == ',' {
        Some((s.len() - 1) as nat)
    } else {
        last_comma(s.drop_last())
    }
}

/// The last comma is a comma within the text; without one there is none.
pub proof fn lemma_last_comma_bound(s: Seq<char>)
    ensures
        last_comma(s) matches Some(i) ==> i < s.len() && s[i as int] == ',',
        last_comma(s) is None ==> !s.contains(','),
    decreases s.len(),
{
    if s.len() > 0 && s.last() != ',' {
        lemma_last_comma_bound(s.drop_last());
        if last_comma(s) is None {
            assert forall|i: int| 0 <= i < s.len() implies s[i] != ',' by {
                if i < s.len() - 1 {
                    assert(s[i] == s.drop_last()[i]);
                }
            }
        }
    }
}

/// The fields of a record: the texts between its commas.
pub open spec fn split_fields(s: Seq<char>) -> Seq<Seq<char>>
    decreases s.len(),
{
    match last_comma(s) {
        Some(i) => {
            proof {
                lemma_last_comma_bound(s);
            }
            split_fields(s.take(i as int)) + seq![s.skip(i + 1int)]
        },
        None => seq![s],
    }
}

proof fn lemma_last_comma_of_join(a: Seq<char>, b: Seq<char>)
    requires
        !b.contains(','),
    ensures
        last_comma(a + seq![','] + b) == Some(a.len()),
    decreases b.len(),
{
    let s = a + seq![','] + b;
    if b.len() == 0 {
        assert(s.last() == ',');
    } else {
        assert(b.last() != ',') by {
            assert(b[b.len() - 1] == b.last());
        }
        assert(s.drop_last() =~= a + seq![','] + b.drop_last());
        assert(!b.drop_last().contains(',')) by {
            assert forall|i: int| 0 <= i < b.drop_last().len() implies b.drop_last()[i] != ',' by {
                assert(b.drop_last()[i] == b[i]);
            }
        }
        lemma_last_comma_of_join(a, b.drop_last());
    }
}

/// A record splits back into its fields where no field holds a comma.
pub proof fn law_record_splits_into_fields(fields: Seq<Seq<char>>)
    requires
        fields.len() >= 1,
        forall|i: int| 0 <= i < fields.len() ==> !(#[trigger] fields[i]).contains(','),
    ensures
        split_fields(csv_line(fields)) == fields,
    decreases fields.len(),
{
    if fields.len() == 1 {
        lemma_last_comma_bound(fields[0]);
        if last_comma(fields[0]) matches Some(i) {
            assert(fields[0].contains(','));
        }
        assert(seq![fields[0]] =~= fields);
    } else {
        let init = fields.drop_last();
        let a = csv_line(init);
        let b = fields.last();
        assert(!b.contains(',')) by {
            assert(b == fields[fields.len() - 1]);
        }
        law_record_splits_into_fields(init);
        lemma_last_comma_of_join(a, b);
        let s = a + seq![','] + b;
        assert(s.take(a.len() as int) =~= a);
        assert(s.skip(a.len() + 1int) =~= b);
        assert(init.push(b) =~= fields);
    }
}

/// A result reads back from its record: the record splits into its eight
/// fields, and each number reads back as the number written, where the
/// texts hold no comma.
pub proof fn law_result_line_reads_back(
    framework: Seq<char>,
    scenario: Seq<char>,
    test: Seq<char>,
    pipeline: u64,
    payload: u64,
    rate: u64,
    value: u128,
    unit: Seq<char>,
)
    requires
        !framework.contains(','),
        !scenario.contains(','),
        !test.contains(','),
        !unit.contains(','),
    ensures
        split_fields(result_line(framework, scenario, test, pipeline, payload, rate, value, unit))
            == seq![
            framework,
            scenario,
            test,
            decimal(pipeline as nat),
            decimal(payload as nat),
            decimal(rate as nat),
            decimal(value as nat),
            unit,
        ],
        decimal_value(decimal(pipeline as nat)) == pipeline,
        decimal_value(decimal(payload as nat)) == payload,
        decimal_value(decimal(rate as nat)) == rate,
        decimal_value(decimal(value as nat)) == value,
{
    let fields = seq![
        framework,
        scenario,
        test,
        decimal(pipeline as nat),
        decimal(payload as nat),
        decimal(rate as nat),
        decimal(value as nat),
        unit,
    ];
    law_decimal_reads_back(pipeline as nat);
    law_decimal_reads_back(payload as nat);
    law_decimal_reads_back(rate as nat);
    law_decimal_reads_back(value as nat);
    assert forall|i: int| 0 <= i < fields.len() implies !(#[trigger] fields[i]).contains(',') by {
        if 3 <= i < 7 {
            let d = fields[i];
            assert forall|j: int| 0 <= j < d.len() implies d[j] != ',' by {
                assert('0' <= d[j] <= '9');
            }
        }
    }
    law_record_splits_into_fields(fields);
}

fn digit_str(d: u8) -> (s: &'static str)
    requires
        d < 10,
    ensures
        s@ == seq![digit_char(d as nat)],
{
    match d {
        0 => {
            proof {
                reveal_strlit("0");
            }
            "0"
        },
        1 => {
            proof {
                reveal_strlit("1");
            }
            "1"
        },
        2 => {
            proof {
                reveal_strlit("2");
            }
            "2"
        },
        3 => {
            proof {
                reveal_strlit("3");
            }
            "3"
        },
        4 => {
            proof {
                reveal_strlit("4");
            }
            "4"
        },
        5 => {
            proof {
                reveal_strlit("5");
            }
            "5"
        },
        6 => {
            proof {
                reveal_strlit("6");
            }
            "6"
        },
        7 => {
            proof {
                reveal_strlit("7");
            }
            "7"
        },
        8 => {
            proof {
                reveal_strlit("8");
            }
            "8"
        },
        _ => {
            proof {
                reveal_strlit("9");
            }
            "9"
        },
    }
}

/// The decimal writing of `n`.
pub fn decimal_string(n: u128) -> (s: String)
    ensures
        s@ == decimal(n as nat),
    decreases n,
{
    if n < 10 {
        let mut s = String::new();
        s.append(digit_str(n as u8));
        s
    } else {
        let mut s = decimal_string(n / 10);
        s.append(digit_str((n % 10) as u8));
        s
    }
}

/// Joins `fields` with commas into one record.
pub fn csv_record(fields: &Vec<String>) -> (line: String)
    ensures
        line@ == csv_line(fields@.map_values(|f: String| f@)),
{
    let ghost views = fields@.map_values(|f: String| f@);
    let mut line = String::new();
    let mut i: usize = 0;
    proof {
        reveal_strlit(",");
    }
    assert(views.take(0) =~= Seq::<Seq<char>>::empty());
    while i < fields.len()
        invariant
            i <= fields@.len(),
            views == fields@.map_values(|f: String| f@),
            line@ == csv_line(views.take(i as int)),
            ","@ == seq![','],
        decreases fields@.len() - i,
    {
        assert(views.take(i + 1).drop_last() =~= views.take(i as int));
        if i != 0 {
            line.append(",");
        }
        line.append(fields[i].as_str());
        i = i + 1;
    }
    assert(views.take(i as int) =~= views);
    line
}

/// The time elapsed from `sent` to `now`.
pub fn elapsed_us(now: u128, sent: u128) -> (e: u128)
    requires
        sent <= now,
    ensures
        e == now - sent,
{
    now - sent
}

/// The latency that a pong sink reports for a message stamped `ts` and
/// received at `now`: the time elapsed since `ts` where `diff` is set,
/// otherwise `ts` itself, a latency that an operator upstream measured.
pub fn reported_latency(diff: bool, now: u128, ts: u128) -> (v: u128)
    requires
        diff ==> ts <= now,
    ensures
        v == (if diff {
            now - ts
        } else {
            ts as int
        }),
{
    if diff {
        now - ts
    } else {
        ts
    }
}

/// A result in the common layout of the benchmarks: framework, scenario,
/// test, pipeline, payload, rate, value, unit.
pub open spec fn result_line(
    framework: Seq<char>,
    scenario: Seq<char>,
    test: Seq<char>,
    pipeline: u64,
    payload: u64,
    rate: u64,
    value: u128,
    unit: Seq<char>,
) -> Seq<char> {
    csv_line(
        seq![
            framework,
            scenario,
            test,
            decimal(pipeline as nat),
            decimal(payload as nat),
            decimal(rate as nat),
            decimal(value as nat),
            unit,
        ],
    )
}

/// Writes a result in the common layout of the benchmarks.
pub fn result_record(
    framework: &str,
    scenario: &str,
    test: &str,
    pipeline: u64,
    payload: u64,
    rate: u64,
    value: u128,
    unit: &str,
) -> (line: String)
    ensures
        line@ == result_line(framework@, scenario@, test@, pipeline, payload, rate, value, unit@),
{
    let mut fields: Vec<String> = Vec::new();
    fields.push(framework.to_owned());
    fields.push(scenario.to_owned());
    fields.push(test.to_owned());
    fields.push(decimal_string(pipeline as u128));
    fields.push(decimal_string(payload as u128));
    fields.push(decimal_string(rate as u128));
    fields.push(decimal_string(value));
    fields.push(unit.to_owned());
    let line = csv_record(&fields);
    assert(fields@.map_values(|f: String| f@) =~= seq![
        framework@,
        scenario@,
        test@,
        decimal(pipeline as nat),
        decimal(payload as nat),
        decimal(rate as nat),
        decimal(value as nat),
        unit@,
    ]);
    line
}

/// A latency as the printing operator reports it: layer, "scenario",
/// "latency", "pipeline", messages per second, pipeline length, latency, unit.
pub open spec fn operator_latency_line(layer: Seq<char>, msgs: u64, pipeline: u64, elapsed: u128) -> Seq<char> {
    csv_line(
        seq![
            layer,
            "scenario"@,
            "latency"@,
            "pipeline"@,
            decimal(msgs as nat),
            decimal(pipeline as nat),
            decimal(elapsed as nat),
            "us"@,
        ],
    )
}

/// Writes a latency as the printing operator reports it.
pub fn operator_latency_record(layer: &str, msgs: u64, pipeline: u64, elapsed: u128) -> (line: String)
    ensures
        line@ == operator_latency_line(layer@, msgs, pipeline, elapsed),
{
    let mut fields: Vec<String> = Vec::new();
    fields.push(layer.to_owned());
    fields.push("scenario".to_owned());
    fields.push("latency".to_owned());
    fields.push("pipeline".to_owned());
    fields.push(decimal_string(msgs as u128));
    fields.push(decimal_string(pipeline as u128));
    fields.push(decimal_string(elapsed));
    fields.push("us".to_owned());
    let line = csv_record(&fields);
    assert(fields@.map_values(|f: String| f@) =~= seq![
        layer@,
        "scenario"@,
        "latency"@,
        "pipeline"@,
        decimal(msgs as nat),
        decimal(pipeline as nat),
        decimal(elapsed as nat),
        "us"@,
    ]);
    line
}

/// A latency as the scalability sinks report it besides the common layout:
/// "zenoh-flow", layer, "latency", "zenoh-flow-latency", messages per second,
/// number of nodes, latency, payload, unit.
pub open spec fn scalability_latency_line(layer: Seq<char>, msgs: u64, nodes: u64, elapsed: u128) -> Seq<char> {
    csv_line(
        seq![
            "zenoh-flow"@,
            layer,
            "latency"@,
            "zenoh-flow-latency"@,
            decimal(msgs as nat),
            decimal(nodes as nat),
            decimal(elapsed as nat),
            "8"@,
            "us"@,
        ],
    )
}

/// Writes a latency as the scalability sinks report it besides the common
/// layout.
pub fn scalability_latency_record(layer: &str, msgs: u64, nodes: u64, elapsed: u128) -> (line: String)
    ensures
        line@ == scalability_latency_line(layer@, msgs, nodes, elapsed),
{
    let mut fields: Vec<String> = Vec::new();
    fields.push("zenoh-flow".to_owned());
    fields.push(layer.to_owned());
    fields.push("latency".to_owned());
    fields.push("zenoh-flow-latency".to_owned());
    fields.push(decimal_string(msgs as u128));
    fields.push(decimal_string(nodes as u128));
    fields.push(decimal_string(elapsed));
    fields.push("8".to_owned());
    fields.push("us".to_owned());
    let line = csv_record(&fields);
    assert(fields@.map_values(|f: String| f@) =~= seq![
        "zenoh-flow"@,
        layer@,
        "latency"@,
        "zenoh-flow-latency"@,
        decimal(msgs as nat),
        decimal(nodes as nat),
        decimal(elapsed as nat),
        "8"@,
        "us"@,
    ]);
    line
}

} // verus!
