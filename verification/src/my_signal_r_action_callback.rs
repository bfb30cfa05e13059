//! The handler of one action: what it makes of the parameters of an
//! invocation before the application's callback sees them.

use crate::signal_r_param::append_bytes;
use vstd::prelude::*;
use vstd::string::StringExecFns;

verus! {

/// A contract that can be read from the parameters of an invocation.
pub trait SignalrContractDeserializer {
    type Item;

    fn deserialize(data: &[&[u8]]) -> Result<Self::Item, String>;
}

/// One item of the `arguments` array of an invocation, as a reader hands it
/// over.
pub enum ParameterItem<'s> {
    /// The item, as the bytes it was written with.
    Value(&'s [u8]),
    /// The reader could not make out the item; its error, in words.
    Unreadable(String),
}

/// The report of an invocation, or of a part of one, that was dropped.
pub struct PayloadReport {
    pub process: String,
    pub message: String,
    /// The name of the action.
    pub action: String,
    /// The `arguments` array of the invocation, as it came in.
    pub payload: Vec<u8>,
}

/// The name of the process that reports.
pub open spec fn report_process() -> Seq<char> {
    "Signalr payload handler"@
}

/// What is reported of an item that the reader could not make out.
pub open spec fn unreadable_message(error: Seq<char>) -> Seq<char> {
    "Can read parameters payloads. Err: "@ + error
}

/// What is reported of parameters that are not the contract.
pub open spec fn rejected_message(error: Seq<char>) -> Seq<char> {
    "Can not deserialize payload. Err: "@ + error
}

/// Whether `report` tells of `message` for the action `action_name` and the
/// payload `data`.
pub open spec fn is_report(
    report: PayloadReport,
    message: Seq<char>,
    action_name: Seq<char>,
    data: Seq<u8>,
) -> bool {
    &&& report.process@ == report_process()
    &&& report.message@ == message
    &&& report.action@ == action_name
    &&& report.payload@ == data
}

/// The items of `items` that were read, in order.
pub open spec fn readable<'s>(items: Seq<ParameterItem<'s>>) -> Seq<&'s [u8]>
    decreases items.len(),
{
    if items.len() == 0 {
        Seq::empty()
    } else {
        match items.last() {
            ParameterItem::Value(value) => readable(items.drop_last()).push(value),
            ParameterItem::Unreadable(_) => readable(items.drop_last()),
        }
    }
}

/// The errors of the items of `items` that could not be read, in order.
pub open spec fn unreadable<'s>(items: Seq<ParameterItem<'s>>) -> Seq<Seq<char>>
    decreases items.len(),
{
    if items.len() == 0 {
        Seq::empty()
    } else {
        match items.last() {
            ParameterItem::Value(_) => unreadable(items.drop_last()),
            ParameterItem::Unreadable(error) => unreadable(items.drop_last()).push(error@),
        }
    }
}

/// Whether `reports` tells of each of `errors`, in order, for the action
/// `action_name` and the payload `data`.
pub open spec fn reports_unreadable(
    reports: Seq<PayloadReport>,
    errors: Seq<Seq<char>>,
    action_name: Seq<char>,
    data: Seq<u8>,
) -> bool {
    &&& reports.len() == errors.len()
    &&& forall|i: int|
        0 <= i < reports.len() ==> is_report(
            #[trigger] reports[i],
            unreadable_message(errors[i]),
            action_name,
            data,
        )
}

fn new_report(message: String, action_name: &str, data: &[u8]) -> (report: PayloadReport)
    ensures
        is_report(report, message@, action_name@, data@),
{
    let mut payload: Vec<u8> = Vec::new();
    append_bytes(&mut payload, data);
    PayloadReport {
        process: String::from_str("Signalr payload handler"),
        message,
        action: String::from_str(action_name),
        payload,
    }
}

/// The parameters of an invocation that were read, and a report for each
/// item that was not.
pub fn read_parameters<'s>(items: &[ParameterItem<'s>], action_name: &str, data: &[u8]) -> (read: (
    Vec<&'s [u8]>,
    Vec<PayloadReport>,
))
    ensures
        read.0@ == readable(items@),
        reports_unreadable(read.1@, unreadable(items@), action_name@, data@),
{
    let mut params: Vec<&'s [u8]> = Vec::new();
    let mut reports: Vec<PayloadReport> = Vec::new();
    let mut i: usize = 0;
    while i < items.len()
        invariant
            i <= items@.len(),
            params@ == readable(items@.subrange(0, i as int)),
            reports_unreadable(
                reports@,
                unreadable(items@.subrange(0, i as int)),
                action_name@,
                data@,
            ),
        decreases items@.len() - i,
    {
        proof {
            let next = items@.subrange(0, i + 1);
            assert(next.drop_last() =~= items@.subrange(0, i as int));
            assert(next.last() == items@[i as int]);
        }
        match &items[i] {
            ParameterItem::Value(value) => {
                params.push(*value);
            },
            ParameterItem::Unreadable(error) => {
                let mut message = String::from_str("Can read parameters payloads. Err: ");
                message.append(error.as_str());
                reports.push(new_report(message, action_name, data));
            },
        }
        i += 1;
    }
    proof {
        assert(items@.subrange(0, i as int) =~= items@);
    }
    (params, reports)
}

/// What becomes of an invocation once its parameters have been read as the
/// contract or refused: the contract goes to the application's callback, a
/// refusal is reported and the invocation is dropped.
pub fn deserialized<TContract>(
    outcome: Result<TContract, String>,
    action_name: &str,
    data: &[u8],
) -> (contract: Result<TContract, PayloadReport>)
    ensures
        match contract {
            Ok(contract) => outcome == Ok::<TContract, String>(contract),
            Err(report) => outcome is Err && is_report(
                report,
                rejected_message(outcome->Err_0@),
                action_name@,
                data@,
            ),
        },
{
    match outcome {
        Ok(contract) => Ok(contract),
        Err(error) => {
            let mut message = String::from_str("Can not deserialize payload. Err: ");
            message.append(error.as_str());
            Err(new_report(message, action_name, data))
        },
    }
}

/// The handler of the action `action_name`, with the application's callback
/// for it.
pub struct MySignalrCallbacksInstance<TCallback> {
    pub action_name: String,
    pub callback: TCallback,
}

/// What a handler makes of an invocation.
pub struct HandledInvocation<TContract> {
    /// The contract for the application's callback, where the parameters
    /// are one.
    pub contract: Option<TContract>,
    /// What is to be reported: the items that could not be read, then the
    /// refusal of the parameters, where they are no contract.
    pub reports: Vec<PayloadReport>,
}

impl<TCallback> MySignalrCallbacksInstance<TCallback> {
    /// Reads the parameters of an invocation as the contract `TContract`.
    /// Every item that could not be read is reported, and the others are
    /// handed to the contract's reader; where it refuses them, that is
    /// reported after the items and there is no contract.
    pub fn on<'s, TContract: SignalrContractDeserializer<Item = TContract>>(
        &self,
        items: &[ParameterItem<'s>],
        data: &[u8],
    ) -> (handled: HandledInvocation<TContract>)
        ensures
            ({
                let errors = unreadable(items@);
                let told = if handled.contract is Some {
                    handled.reports@
                } else {
                    handled.reports@.drop_last()
                };
                &&& handled.contract is None ==> handled.reports@.len() == errors.len() + 1
                &&& reports_unreadable(told, errors, self.action_name@, data@)
                &&& handled.contract is None ==> exists|error: Seq<char>|
                    is_report(
                        handled.reports@.last(),
                        #[trigger] rejected_message(error),
                        self.action_name@,
                        data@,
                    )
            }),
    {
        let (params, mut reports) = read_parameters(items, self.action_name.as_str(), data);
        let ghost told = reports@;
        let outcome = TContract::deserialize(params.as_slice());
        match deserialized(outcome, self.action_name.as_str(), data) {
            Ok(contract) => HandledInvocation { contract: Some(contract), reports },
            Err(report) => {
                reports.push(report);
                proof {
                    assert(reports@.drop_last() =~= told);
                    assert(reports@.last() == report);
                }
                HandledInvocation { contract: None, reports }
            },
        }
    }
}

} // verus!
