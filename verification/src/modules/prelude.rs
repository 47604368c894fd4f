//! The printing functions. They do not write anywhere themselves: what
//! they print is added to the host's output, for the caller to write out.

use vstd::prelude::*;
use vstd::string::StringExecFns;
use crate::builtin_types::native_function::{lines_of, native_outcome};
use crate::builtin_types::null::new_null;
use crate::builtin_types::string::new_string;
use crate::env::Environment;
use crate::obj::{
    BaseObject, Native, ObjResult, joined_text, objects_view, strings_view, write_objects,
};
use crate::vm::{Host, called};

verus! {

/// The texts of the arguments with a blank between them.
fn joined(args: &Vec<BaseObject>, inspect: bool) -> (r: String)
    ensures
        r@ == joined_text(objects_view(args@), args@.len(), inspect, " "@),
{
    let mut r = String::new();
    write_objects(args, inspect, " ", &mut r);
    proof {
        assert(r@ =~= joined_text(objects_view(args@), args@.len(), inspect, " "@));
    }
    r
}

/// Adds `text` to the output.
fn emit(host: &mut Host, text: String)
    ensures
        strings_view(final(host).output@) == strings_view(old(host).output@).push(text@),
        final(host).steps_left == old(host).steps_left,
        final(host).depth_left == old(host).depth_left,
{
    let ghost before = strings_view(host.output@);
    host.output.push(text);
    proof {
        assert(strings_view(host.output@) =~= before.push(text@));
    }
}

/// `println`: prints the texts of the arguments on one line, and returns
/// them as a string.
pub fn print_line(_this: BaseObject, args: Vec<BaseObject>, _e: Environment, host: &mut Host) -> (r:
    ObjResult)
    ensures
        called(*old(host), *final(host), r, native_outcome(Native::PrintLine, _this@, objects_view(args@))),
{
    let string = joined(&args, false);
    let mut line = string.clone();
    line.append("\n");
    emit(host, line);
    proof {
        let out = native_outcome(Native::PrintLine, _this@, objects_view(args@));
        assert(strings_view(host.output@) =~= strings_view(old(host).output@) + out.output);
    }
    Ok(new_string(string))
}

/// `puts`: prints the text of each argument on a line of its own, and
/// returns null.
pub fn puts(_this: BaseObject, args: Vec<BaseObject>, _e: Environment, host: &mut Host) -> (r:
    ObjResult)
    ensures
        called(*old(host), *final(host), r, native_outcome(Native::Puts, _this@, objects_view(args@))),
{
    let ghost items = objects_view(args@);
    let ghost before = strings_view(host.output@);
    let mut i: usize = 0;
    proof {
        assert(strings_view(host.output@) =~= before + lines_of(items).take(0));
    }
    while i < args.len()
        invariant
            i <= args.len(),
            items == objects_view(args@),
            strings_view(host.output@) == before + lines_of(items).take(i as int),
            host.steps_left == old(host).steps_left,
            host.depth_left == old(host).depth_left,
        decreases args.len() - i,
    {
        let mut line = args[i].to_string();
        line.append("\n");
        emit(host, line);
        i += 1;
        proof {
            assert(strings_view(host.output@) =~= before + lines_of(items).take(i as int));
        }
    }
    proof {
        assert(lines_of(items).take(args.len() as int) =~= lines_of(items));
    }
    Ok(new_null())
}

/// Prints the inspect forms of the arguments on one line, and returns
/// them as a string.
pub fn print_inspect_line(
    _this: BaseObject,
    args: Vec<BaseObject>,
    _e: Environment,
    host: &mut Host,
) -> (r: ObjResult)
    ensures
        called(
            *old(host),
            *final(host),
            r,
            native_outcome(Native::PrintInspectLine, _this@, objects_view(args@)),
        ),
{
    let string = joined(&args, true);
    let mut line = string.clone();
    line.append("\n");
    emit(host, line);
    proof {
        let out = native_outcome(Native::PrintInspectLine, _this@, objects_view(args@));
        assert(strings_view(host.output@) =~= strings_view(old(host).output@) + out.output);
    }
    Ok(new_string(string))
}

/// Prints the texts of the arguments without a line feed, and returns
/// them as a string.
pub fn print(_this: BaseObject, args: Vec<BaseObject>, _e: Environment, host: &mut Host) -> (r:
    ObjResult)
    ensures
        called(*old(host), *final(host), r, native_outcome(Native::Print, _this@, objects_view(args@))),
{
    let string = joined(&args, false);
    emit(host, string.clone());
    proof {
        let out = native_outcome(Native::Print, _this@, objects_view(args@));
        assert(strings_view(host.output@) =~= strings_view(old(host).output@) + out.output);
    }
    Ok(new_string(string))
}

} // verus!
