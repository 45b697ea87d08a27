use vstd::prelude::*;

use crate::order::views;

verus! {

/// Run a shim of the installer in the linked environment.
#[derive(Clone, Debug, PartialEq, Eq)]
pub struct RunSubCmd {
    /// The shim to run.
    pub shim: String,
    /// The toolchain to use.
    pub toolchain: Option<String>,
    /// The arguments for the shim.
    pub args: Vec<String>,
}

impl RunSubCmd {
    /// The arguments handed to the shim: `+<toolchain>` first where a
    /// toolchain is given, then the arguments as they came.
    pub fn shim_args(&self) -> (r: Vec<String>)
        ensures
            views(r@) == match self.toolchain {
                Some(t) => seq!["+"@ + t@] + views(self.args@),
                None => views(self.args@),
            },
    {
        let mut r: Vec<String> = Vec::new();
        match &self.toolchain {
            Some(t) => {
                let mut first = String::from_str("+");
                first.append(t.as_str());
                r.push(first);
            },
            None => {},
        }
        let ghost head = views(r@);
        let mut i: usize = 0;
        while i < self.args.len()
            invariant
                i <= self.args.len(),
                head == match self.toolchain {
                    Some(t) => seq!["+"@ + t@],
                    None => Seq::<Seq<char>>::empty(),
                },
                views(r@) == head + views(self.args@).take(i as int),
            decreases self.args.len() - i,
        {
            let ghost prev = views(r@);
            r.push(self.args[i].clone());
            assert(views(r@) =~= prev.push(self.args@[i as int]@));
            assert(views(r@) =~= head + views(self.args@).take(i + 1));
            i += 1;
        }
        assert(views(self.args@).take(i as int) =~= views(self.args@));
        r
    }
}

} // verus!
