//! Testing facilities: a suite of named test cases run together.

use vstd::prelude::*;

verus! {

/// What a test case reports: success, or a readable failure text.
pub type TestResult = Result<bool, String>;

/// A named test case over a shared configuration type.
struct Test<T, F> {
    /// Name of the test.
    name: String,
    /// The test function.
    func: F,
    /// Its configuration.
    config: T,
}

/// A set of tests supposed to be run together, all dispatched through one
/// test-function type.
pub struct TestSuite<T, F> {
    /// The cases, in the order they were added.
    tests: Vec<Test<T, F>>,
}

impl<T, F: Fn(&T) -> TestResult> TestSuite<T, F> {
    /// The number of cases held.
    pub closed spec fn spec_len(&self) -> int {
        self.tests@.len() as int
    }

    /// The name of the `i`-th case.
    pub closed spec fn spec_name(&self, i: int) -> Seq<char> {
        self.tests@[i].name@
    }

    /// The function of the `i`-th case.
    pub closed spec fn spec_func(&self, i: int) -> F {
        self.tests@[i].func
    }

    /// The configuration of the `i`-th case.
    pub closed spec fn spec_config(&self, i: int) -> T {
        self.tests@[i].config
    }

    /// The number of cases among the first `i` whose name is `name`.
    pub closed spec fn spec_count_matching(&self, name: Seq<char>, i: int) -> int
        decreases i,
    {
        if i <= 0 {
            0
        } else {
            self.spec_count_matching(name, i - 1) + (if self.spec_name(i - 1) == name {
                1int
            } else {
                0int
            })
        }
    }

    /// Every held function may be called on any configuration.
    pub closed spec fn wf(&self) -> bool {
        forall|i: int|
            0 <= i < self.tests@.len() ==> forall|a: &T| call_requires(
                (#[trigger] self.tests@[i]).func,
                (a,),
            )
    }

    /// Creates an empty test suite.
    pub fn new() -> (r: Self)
        ensures
            r.spec_len() == 0,
            r.wf(),
    {
        TestSuite { tests: Vec::new() }
    }

    /// Adds a test to the suite: the case is appended with exactly the
    /// given name, function and configuration, and the earlier cases keep
    /// their values and order.
    pub fn add(&mut self, name: &str, f: F, config: T)
        requires
            old(self).wf(),
            forall|a: &T| call_requires(f, (a,)),
        ensures
            final(self).wf(),
            final(self).spec_len() == old(self).spec_len() + 1,
            final(self).spec_name(old(self).spec_len()) == name@,
            final(self).spec_func(old(self).spec_len()) == f,
            final(self).spec_config(old(self).spec_len()) == config,
            forall|i: int|
                0 <= i < old(self).spec_len() ==> #[trigger] final(self).spec_name(i) == old(self).spec_name(i) && final(self).spec_func(i) == old(self).spec_func(i) && final(self).spec_config(i) == old(self).spec_config(i),
    {
        let ghost n0 = self.tests@;
        self.tests.push(Test { name: name.to_owned(), func: f, config });
        proof {
            assert forall|i: int| 0 <= i < self.tests@.len() implies forall|a: &T| call_requires(
                (#[trigger] self.tests@[i]).func,
                (a,),
            ) by {
                if i < n0.len() {
                    assert(self.tests@[i] == n0[i]);
                }
            }
            assert forall|i: int| 0 <= i < n0.len() implies #[trigger] self.tests@[i] == n0[
                i
            ] by {
            }
        }
    }

    /// Executes every test in turn: the `i`-th result carries the `i`-th
    /// case's name and a value its function admits on its configuration.
    /// Rendering is left to the surrounding harness.
    pub fn run_results(&self) -> (r: Vec<(String, TestResult)>)
        requires
            self.wf(),
        ensures
            r@.len() == self.spec_len(),
            forall|i: int|
                0 <= i < r@.len() ==> (#[trigger] r@[i]).0@ == self.spec_name(i)
                    && call_ensures(self.spec_func(i), (&self.spec_config(i),), r@[i].1),
    {
        let mut out: Vec<(String, TestResult)> = Vec::new();
        let mut i: usize = 0;
        while i < self.tests.len()
            invariant
                0 <= i <= self.tests@.len(),
                out@.len() == i,
                self.wf(),
                forall|j: int|
                    0 <= j < i ==> (#[trigger] out@[j]).0@ == self.spec_name(j)
                        && call_ensures(self.spec_func(j), (&self.spec_config(j),), out@[j].1),
            decreases self.tests@.len() - i,
        {
            let t = &self.tests[i];
            let result = (t.func)(&t.config);
            out.push((t.name.clone(), result));
            i = i + 1;
        }
        out
    }

    /// Executes every test of the given name, one call per matching case
    /// in insertion order, and returns their results.
    pub fn run_test_results(&self, name: &str) -> (r: Vec<TestResult>)
        requires
            self.wf(),
        ensures
            r@.len() == self.spec_count_matching(name@, self.spec_len()),
    {
        let owned = name.to_owned();
        let mut out: Vec<TestResult> = Vec::new();
        let mut i: usize = 0;
        while i < self.tests.len()
            invariant
                0 <= i <= self.tests@.len(),
                self.wf(),
                owned@ == name@,
                out@.len() == self.spec_count_matching(name@, i as int),
            decreases self.tests@.len() - i,
        {
            let t = &self.tests[i];
            if t.name == owned {
                let result = (t.func)(&t.config);
                out.push(result);
            }
            i = i + 1;
        }
        out
    }

    /// Whether every collected result is a success.
    pub fn all_passed(results: &Vec<(String, TestResult)>) -> (r: bool)
        ensures
            r == (forall|i: int| 0 <= i < results@.len() ==> (#[trigger] results@[i]).1 is Ok),
    {
        let mut i: usize = 0;
        while i < results.len()
            invariant
                0 <= i <= results@.len(),
                forall|j: int| 0 <= j < i ==> (#[trigger] results@[j]).1 is Ok,
            decreases results@.len() - i,
        {
            if results[i].1.is_err() {
                return false;
            }
            i = i + 1;
        }
        true
    }
}

impl<T, F: Fn(&T) -> TestResult> Default for TestSuite<T, F> {
    /// The default suite is the empty one, as [`TestSuite::new`] builds it.
    fn default() -> (r: Self)
        ensures
            r.spec_len() == 0,
            r.wf(),
    {
        TestSuite::new()
    }
}

} // verus!
