use vstd::prelude::*;

use crate::assoc::lookup;
use crate::call_stack::{CallFrame, CallItem};
use crate::host::InterfaceImpl;
use crate::ledger::Table;
use crate::LedgerError;

verus! {

/// The invocation options, as given by the user.
#[derive(Debug, Clone, PartialEq, Eq)]
pub struct Arguments {
    /// Path of a module file to run.
    pub filename: Option<String>,
    /// Address whose bytecode to run.
    pub addr: Option<String>,
    /// Entry point to call instead of the default one.
    pub function: Option<String>,
    /// Coins attached to the top-level call.
    pub coins: Option<u64>,
    /// The parameter passed to `function`.
    pub arg: Option<String>,
    /// Identity of the top-level caller.
    pub sender: Option<String>,
}

/// A resolved invocation, ready to be run.
#[derive(Debug)]
pub struct Inputs {
    /// The options it was resolved from.
    pub args: Arguments,
    /// The module to execute.
    pub module: Vec<u8>,
    /// The module file's path, when the module came from a file.
    pub filename: Option<String>,
    /// The caller's address and the coins it attaches.
    pub caller: Option<CallItem>,
    /// The entry point and its parameter; `None` runs the default entry point.
    pub function: Option<(String, String)>,
}

pub open spec fn chars_opt(o: Option<String>) -> Option<Seq<char>> {
    match o {
        Some(s) => Some(s@),
        None => None,
    }
}

/// The module that an invocation runs: the file's contents, or the bytecode at
/// the address. Naming both is an error, and so is naming neither.
pub open spec fn module_for(
    has_file: bool,
    addr: Option<Seq<char>>,
    file: Option<Seq<u8>>,
    t: Table,
) -> Result<Seq<u8>, LedgerError> {
    if has_file && addr is Some {
        Err(LedgerError::InvalidInvocation)
    } else if file is Some {
        Ok(file->Some_0)
    } else {
        match addr {
            None => Err(LedgerError::NoModule),
            Some(a) => match lookup(t, a) {
                Some(acc) if acc.bytecode is Some => Ok(acc.bytecode->Some_0),
                _ => Err(LedgerError::NoModule),
            },
        }
    }
}

pub open spec fn file_module(opt: Option<(String, Vec<u8>)>) -> Option<Seq<u8>> {
    match opt {
        Some(f) => Some(f.1@),
        None => None,
    }
}

pub open spec fn file_name(opt: Option<(String, Vec<u8>)>) -> Option<Seq<char>> {
    match opt {
        Some(f) => Some(f.0@),
        None => None,
    }
}

/// The caller frame that an invocation attaches: the sender, with the coins
/// given or none.
pub open spec fn caller_for(sender: Option<Seq<char>>, coins: Option<u64>) -> Option<CallFrame> {
    match sender {
        Some(a) => Some(CallFrame { address: a, coins: if coins is Some { coins->Some_0 } else { 0 } }),
        None => None,
    }
}

pub open spec fn caller_view(c: Option<CallItem>) -> Option<CallFrame> {
    match c {
        Some(item) => Some(item@),
        None => None,
    }
}

/// The entry point and parameter: the function named, with the parameter given
/// or an empty one.
pub open spec fn function_for(function: Option<Seq<char>>, arg: Option<Seq<char>>) -> Option<(Seq<char>, Seq<char>)> {
    match function {
        Some(f) => Some((f, if arg is Some { arg->Some_0 } else { Seq::empty() })),
        None => None,
    }
}

pub open spec fn function_view(f: Option<(String, String)>) -> Option<(Seq<char>, Seq<char>)> {
    match f {
        Some(p) => Some((p.0@, p.1@)),
        None => None,
    }
}

/// Resolves the module to run: `opt` is the module file's path and contents, when
/// a file was named and read.
pub fn get_module(args: &Arguments, opt: Option<(String, Vec<u8>)>, interface: &InterfaceImpl) -> (r: Result<Vec<u8>, LedgerError>)
    ensures
        match module_for(args.filename is Some, chars_opt(args.addr), file_module(opt), interface.table()) {
            Ok(m) => r is Ok && r->Ok_0@ == m,
            Err(e) => r == Err::<Vec<u8>, LedgerError>(e),
        },
{
    if args.addr.is_some() && args.filename.is_some() {
        return Err(LedgerError::InvalidInvocation);
    }
    if let Some((_, module)) = opt {
        return Ok(module);
    }
    let addr = match &args.addr {
        Some(addr) => addr,
        None => return Err(LedgerError::NoModule),
    };
    interface.get_bytecode(addr)
}

/// Resolves an invocation: the module to run, the entry point and the caller.
pub fn get_inputs(args: Arguments, file: Option<(String, Vec<u8>)>, interface: &InterfaceImpl) -> (r: Result<Inputs, LedgerError>)
    ensures
        match module_for(args.filename is Some, chars_opt(args.addr), file_module(file), interface.table()) {
            Ok(m) => r is Ok && r->Ok_0.module@ == m && r->Ok_0.args == args
                && chars_opt(r->Ok_0.filename) == file_name(file)
                && caller_view(r->Ok_0.caller) == caller_for(chars_opt(args.sender), args.coins)
                && function_view(r->Ok_0.function) == function_for(chars_opt(args.function), chars_opt(args.arg)),
            Err(e) => r is Err && r->Err_0 == e,
        },
{
    let filename = match &file {
        Some((path, _)) => Some(path.clone()),
        None => None,
    };
    let module = match get_module(&args, file, interface) {
        Ok(m) => m,
        Err(e) => return Err(e),
    };
    let function = match &args.function {
        Some(func) => {
            let param = match &args.arg {
                Some(a) => a.clone(),
                None => String::new(),
            };
            Some((func.clone(), param))
        },
        None => None,
    };
    let caller = match &args.sender {
        Some(address) => Some(
            CallItem {
                address: address.clone(),
                coins: match args.coins {
                    Some(c) => c,
                    None => 0,
                },
            },
        ),
        None => None,
    };
    Ok(Inputs { filename, module, function, caller, args })
}

} // verus!
