//! Applying a changed configuration to fans that are under control.

use crate::config::{config_views, sensor_views, FanConfig, FanConfigView, SensorSpec};
use crate::error::Error;
use crate::fan_controller::FanController;
use crate::non_empty::{fan_at, fan_at_mut, fan_count, fan_list};
use crate::text::{concat, decimal, decimal_text};
use vstd::prelude::*;
use vstd::string::*;

verus! {

/// The first fan that was left to the SMC and is not any more, or the other way round.
pub open spec fn first_auto_change(
    was_auto: Seq<bool>,
    configs: Seq<FanConfigView>,
) -> Option<nat>
    decreases configs.len(),
{
    if configs.len() == 0 {
        None
    } else {
        match first_auto_change(was_auto, configs.drop_last()) {
            Some(i) => Some(i),
            None => if configs.last().auto != was_auto[configs.len() - 1] {
                Some((configs.len() - 1) as nat)
            } else {
                None
            },
        }
    }
}

/// The configurations of the fans that are not left to the SMC.
pub open spec fn tracked_configs(configs: Seq<FanConfigView>) -> Seq<FanConfigView>
    decreases configs.len(),
{
    if configs.len() == 0 {
        Seq::empty()
    } else if configs.last().auto {
        tracked_configs(configs.drop_last())
    } else {
        tracked_configs(configs.drop_last()).push(configs.last())
    }
}

/// The first fan with other sensors than the configuration names.
pub open spec fn first_sensor_change(
    fans: Seq<FanController>,
    configs: Seq<FanConfigView>,
) -> Option<nat>
    decreases configs.len(),
{
    if configs.len() == 0 {
        None
    } else {
        match first_sensor_change(fans, configs.drop_last()) {
            Some(i) => Some(i),
            None => if fans[configs.len() - 1].settings()@.sensors != configs.last().sensors {
                Some((configs.len() - 1) as nat)
            } else {
                None
            },
        }
    }
}

/// What in the configurations only a restart can change, if anything.
pub open spec fn structural_change(
    fans: Seq<FanController>,
    was_auto: Seq<bool>,
    configs: Seq<FanConfigView>,
) -> Option<Seq<char>> {
    let driven = tracked_configs(configs);
    if configs.len() != was_auto.len() {
        Some("fan count differs"@)
    } else if first_auto_change(was_auto, configs) is Some {
        Some(
            "auto flag changed at Fan"@ + decimal(
                (first_auto_change(was_auto, configs)->0 + 1) as nat,
            ),
        )
    } else if driven.len() != fans.len() {
        Some("tracked fan count differs"@)
    } else if first_sensor_change(fans, driven) is Some {
        Some(
            "sensors changed at tracked fan #"@ + decimal(
                (first_sensor_change(fans, driven)->0 + 1) as nat,
            ),
        )
    } else {
        None
    }
}

/// The fans have these configurations, and nothing else of them changed.
pub open spec fn reconfigured(
    before: Seq<FanController>,
    after: Seq<FanController>,
    configs: Seq<FanConfigView>,
) -> bool {
    &&& after.len() == before.len()
    &&& forall|i: int| #![trigger after[i]]
        0 <= i < after.len() ==> {
            &&& after[i].settings()@ == configs[i]
            &&& after[i].same_fan(before[i])
        }
}

/// Whether a reload came out as it should: refused where only a restart can change what is new,
/// with the fans as they were, and else done.
pub open spec fn reload_result(
    r: Result<(), Error>,
    before: Seq<FanController>,
    after: Seq<FanController>,
    was_auto: Seq<bool>,
    configs: Seq<FanConfigView>,
) -> bool {
    match structural_change(before, was_auto, configs) {
        Some(what) => {
            &&& r matches Err(Error::ConfigStructureChanged(s)) && s@ == what
            &&& after == before
        },
        None => r is Ok && reconfigured(before, after, tracked_configs(configs)),
    }
}

/// A change among the first fans is the first change.
proof fn lemma_auto_change_stays(was_auto: Seq<bool>, configs: Seq<FanConfigView>, k: int)
    requires
        0 <= k <= configs.len(),
        first_auto_change(was_auto, configs.take(k)) is Some,
    ensures
        first_auto_change(was_auto, configs) == first_auto_change(was_auto, configs.take(k)),
    decreases configs.len() - k,
{
    if k == configs.len() {
        assert(configs.take(k) =~= configs);
    } else {
        assert(configs.take(k + 1).drop_last() =~= configs.take(k));
        lemma_auto_change_stays(was_auto, configs, k + 1);
    }
}

/// A change among the first fans is the first change.
proof fn lemma_sensor_change_stays(
    fans: Seq<FanController>,
    configs: Seq<FanConfigView>,
    k: int,
)
    requires
        0 <= k <= configs.len(),
        first_sensor_change(fans, configs.take(k)) is Some,
    ensures
        first_sensor_change(fans, configs) == first_sensor_change(fans, configs.take(k)),
    decreases configs.len() - k,
{
    if k == configs.len() {
        assert(configs.take(k) =~= configs);
    } else {
        assert(configs.take(k + 1).drop_last() =~= configs.take(k));
        lemma_sensor_change_stays(fans, configs, k + 1);
    }
}

/// Looks for the first fan whose `auto` changed.
fn find_auto_change(was_auto: &Vec<bool>, configs: &Vec<FanConfig>) -> (r: Option<usize>)
    requires
        was_auto.len() == configs.len(),
    ensures
        match r {
            Some(i) => {
                &&& i < configs.len()
                &&& first_auto_change(was_auto@, config_views(configs@)) == Some(i as nat)
            },
            None => first_auto_change(was_auto@, config_views(configs@)) is None,
        },
{
    let ghost views = config_views(configs@);
    let mut i: usize = 0;
    assert(views.take(0) =~= Seq::<FanConfigView>::empty());
    while i < configs.len()
        invariant
            i <= configs.len(),
            was_auto.len() == configs.len(),
            views == config_views(configs@),
            first_auto_change(was_auto@, views.take(i as int)) is None,
        decreases configs.len() - i,
    {
        assert(views.take(i + 1).drop_last() =~= views.take(i as int));
        if configs[i].auto != was_auto[i] {
            proof {
                lemma_auto_change_stays(was_auto@, views, i + 1);
            }
            return Some(i);
        }
        i = i + 1;
    }
    assert(views.take(i as int) =~= views);
    None
}

/// The configurations of the fans that are not left to the SMC.
fn keep_tracked(configs: &Vec<FanConfig>) -> (r: Vec<FanConfig>)
    ensures
        config_views(r@) == tracked_configs(config_views(configs@)),
{
    let ghost views = config_views(configs@);
    let mut r: Vec<FanConfig> = Vec::new();
    let mut i: usize = 0;
    assert(views.take(0) =~= Seq::<FanConfigView>::empty());
    assert(config_views(r@) =~= Seq::<FanConfigView>::empty());
    while i < configs.len()
        invariant
            i <= configs.len(),
            views == config_views(configs@),
            config_views(r@) == tracked_configs(views.take(i as int)),
        decreases configs.len() - i,
    {
        assert(views.take(i + 1).drop_last() =~= views.take(i as int));
        if !configs[i].auto {
            let ghost before = config_views(r@);
            let config: FanConfig = configs[i].clone();
            r.push(config);
            assert(config_views(r@) =~= before.push(config@));
        }
        i = i + 1;
    }
    assert(views.take(i as int) =~= views);
    r
}

/// Whether two lists name the same sensors in the same order.
fn same_sensors(a: &Vec<SensorSpec>, b: &Vec<SensorSpec>) -> (r: bool)
    ensures
        r == (sensor_views(a@) == sensor_views(b@)),
{
    let ghost left = sensor_views(a@);
    let ghost right = sensor_views(b@);
    if a.len() != b.len() {
        assert(left.len() != right.len());
        return false;
    }
    let mut i: usize = 0;
    while i < a.len()
        invariant
            i <= a.len(),
            a.len() == b.len(),
            left == sensor_views(a@),
            right == sensor_views(b@),
            forall|j: int| 0 <= j < i ==> (#[trigger] left[j]) == right[j],
        decreases a.len() - i,
    {
        if !a[i].same(&b[i]) {
            assert(left[i as int] != right[i as int]);
            return false;
        }
        assert(left[i as int] == right[i as int]);
        i = i + 1;
    }
    assert(left =~= right);
    true
}

/// Looks for the first fan with other sensors than its new configuration names.
fn find_sensor_change(
    fans: &nonempty::NonEmpty<FanController>,
    configs: &Vec<FanConfig>,
) -> (r: Option<usize>)
    requires
        fan_list(*fans).len() == configs.len(),
    ensures
        match r {
            Some(i) => {
                &&& i < configs.len()
                &&& first_sensor_change(fan_list(*fans), config_views(configs@)) == Some(i as nat)
            },
            None => first_sensor_change(fan_list(*fans), config_views(configs@)) is None,
        },
{
    let ghost views = config_views(configs@);
    let mut i: usize = 0;
    assert(views.take(0) =~= Seq::<FanConfigView>::empty());
    while i < configs.len()
        invariant
            i <= configs.len(),
            fan_list(*fans).len() == configs.len(),
            views == config_views(configs@),
            first_sensor_change(fan_list(*fans), views.take(i as int)) is None,
        decreases configs.len() - i,
    {
        assert(views.take(i + 1).drop_last() =~= views.take(i as int));
        if let Some(fan) = fan_at(fans, i) {
            if !same_sensors(&fan.config().sensors, &configs[i].sensors) {
                proof {
                    lemma_sensor_change_stays(fan_list(*fans), views, i + 1);
                }
                return Some(i);
            }
        }
        i = i + 1;
    }
    assert(views.take(i as int) =~= views);
    None
}

/// Gives each fan that is under control its new configuration. Which fans are left to the SMC and
/// which sensors drive a fan cannot change on the way: such configurations are refused, and the
/// fans stay as they are.
pub fn try_reload_curves(
    fans: &mut nonempty::NonEmpty<FanController>,
    auto_pattern: &Vec<bool>,
    new_configs: &Vec<FanConfig>,
) -> (r: Result<(), Error>)
    ensures
        reload_result(
            r,
            fan_list(*old(fans)),
            fan_list(*final(fans)),
            auto_pattern@,
            config_views(new_configs@),
        ),
{
    if new_configs.len() != auto_pattern.len() {
        return Err(Error::ConfigStructureChanged("fan count differs".to_owned()));
    }
    if let Some(i) = find_auto_change(auto_pattern, new_configs) {
        let number: String = decimal_text(i as u64 + 1);
        return Err(
            Error::ConfigStructureChanged(concat("auto flag changed at Fan", number.as_str())),
        );
    }
    let new_tracked: Vec<FanConfig> = keep_tracked(new_configs);
    let ghost views = config_views(new_tracked@);
    if new_tracked.len() != fan_count(fans) {
        return Err(Error::ConfigStructureChanged("tracked fan count differs".to_owned()));
    }
    if let Some(i) = find_sensor_change(fans, &new_tracked) {
        let number: String = decimal_text(i as u64 + 1);
        return Err(
            Error::ConfigStructureChanged(
                concat("sensors changed at tracked fan #", number.as_str()),
            ),
        );
    }
    let ghost before = fan_list(*fans);
    let mut i: usize = 0;
    while i < new_tracked.len()
        invariant
            i <= new_tracked.len(),
            views == config_views(new_tracked@),
            before.len() == new_tracked.len(),
            fan_list(*fans).len() == before.len(),
            forall|j: int| #![trigger fan_list(*fans)[j]]
                0 <= j < before.len() ==> {
                    &&& j < i ==> fan_list(*fans)[j].settings()@ == views[j]
                    &&& fan_list(*fans)[j].same_fan(before[j])
                },
        decreases new_tracked.len() - i,
    {
        let config: FanConfig = new_tracked[i].clone();
        let ghost so_far = fan_list(*fans);
        assert(so_far[i as int].same_fan(before[i as int]));
        if let Some(fan) = fan_at_mut(fans, i) {
            fan.set_config(config);
        }
        assert forall|j: int| #![trigger fan_list(*fans)[j]] 0 <= j < before.len() implies {
            &&& j < i + 1 ==> fan_list(*fans)[j].settings()@ == views[j]
            &&& fan_list(*fans)[j].same_fan(before[j])
        } by {
            assert(so_far[j].same_fan(before[j]));
        }
        i = i + 1;
    }
    Ok(())
}

/// No fan's `auto` changed where none is found.
proof fn lemma_no_auto_change(was_auto: Seq<bool>, configs: Seq<FanConfigView>)
    ensures
        first_auto_change(was_auto, configs) is None <==> forall|i: int|
            0 <= i < configs.len() ==> (#[trigger] configs[i]).auto == was_auto[i],
    decreases configs.len(),
{
    if configs.len() > 0 {
        let rest = configs.drop_last();
        lemma_no_auto_change(was_auto, rest);
        if first_auto_change(was_auto, configs) is None {
            assert forall|i: int| 0 <= i < configs.len() implies (#[trigger] configs[i]).auto
                == was_auto[i] by {
                if i < rest.len() {
                    assert(rest[i] == configs[i]);
                }
            }
        } else if first_auto_change(was_auto, rest) is Some {
            let i = choose|i: int|
                0 <= i < rest.len() && (#[trigger] rest[i]).auto != was_auto[i];
            assert(configs[i] == rest[i]);
        } else {
            assert(configs[configs.len() - 1].auto != was_auto[configs.len() - 1]);
        }
    }
}

/// No fan's sensors changed where none is found.
proof fn lemma_no_sensor_change(fans: Seq<FanController>, configs: Seq<FanConfigView>)
    ensures
        first_sensor_change(fans, configs) is None <==> forall|i: int|
            0 <= i < configs.len() ==> fans[i].settings()@.sensors == (
            #[trigger] configs[i]).sensors,
    decreases configs.len(),
{
    if configs.len() > 0 {
        let rest = configs.drop_last();
        lemma_no_sensor_change(fans, rest);
        if first_sensor_change(fans, configs) is None {
            assert forall|i: int| 0 <= i < configs.len() implies fans[i].settings()@.sensors == (
            #[trigger] configs[i]).sensors by {
                if i < rest.len() {
                    assert(rest[i] == configs[i]);
                }
            }
        } else if first_sensor_change(fans, rest) is Some {
            let i = choose|i: int|
                0 <= i < rest.len() && fans[i].settings()@.sensors != (
                #[trigger] rest[i]).sensors;
            assert(configs[i] == rest[i]);
        } else {
            let n = configs.len() - 1;
            assert(fans[n].settings()@.sensors != configs[n].sensors);
        }
    }
}

/// A configuration is refused exactly where it has another number of fans, leaves another fan to
/// the SMC, or has other sensors for a fan that is under control. Temperatures, curves and
/// exponents can all change.
pub proof fn only_structure_is_refused(
    fans: Seq<FanController>,
    was_auto: Seq<bool>,
    configs: Seq<FanConfigView>,
)
    ensures
        structural_change(fans, was_auto, configs) is None <==> {
            let driven = tracked_configs(configs);
            &&& configs.len() == was_auto.len()
            &&& forall|i: int|
                0 <= i < configs.len() ==> (#[trigger] configs[i]).auto == was_auto[i]
            &&& driven.len() == fans.len()
            &&& forall|i: int|
                0 <= i < driven.len() ==> fans[i].settings()@.sensors == (
                #[trigger] driven[i]).sensors
        },
{
    lemma_no_auto_change(was_auto, configs);
    lemma_no_sensor_change(fans, tracked_configs(configs));
}

/// A reload changes no fan's sensors.
pub proof fn reload_keeps_sensors(
    before: Seq<FanController>,
    after: Seq<FanController>,
    was_auto: Seq<bool>,
    configs: Seq<FanConfigView>,
)
    requires
        structural_change(before, was_auto, configs) is None,
        reconfigured(before, after, tracked_configs(configs)),
    ensures
        forall|i: int| #![trigger after[i]]
            0 <= i < after.len() ==> {
                &&& after[i].settings()@.sensors == before[i].settings()@.sensors
                &&& after[i].indices() == before[i].indices()
            },
{
    let driven = tracked_configs(configs);
    only_structure_is_refused(before, was_auto, configs);
    assert forall|i: int| #![trigger after[i]] 0 <= i < after.len() implies {
        &&& after[i].settings()@.sensors == before[i].settings()@.sensors
        &&& after[i].indices() == before[i].indices()
    } by {
        assert(before[i].settings()@.sensors == driven[i].sensors);
    }
}

/// A configuration that was just applied can be applied again, and the fans have it still.
pub proof fn reload_can_be_repeated(
    before: Seq<FanController>,
    after: Seq<FanController>,
    was_auto: Seq<bool>,
    configs: Seq<FanConfigView>,
)
    requires
        structural_change(before, was_auto, configs) is None,
        reconfigured(before, after, tracked_configs(configs)),
    ensures
        structural_change(after, was_auto, configs) is None,
        reconfigured(after, after, tracked_configs(configs)),
{
    only_structure_is_refused(before, was_auto, configs);
    only_structure_is_refused(after, was_auto, configs);
    let driven = tracked_configs(configs);
    assert forall|i: int| 0 <= i < driven.len() implies after[i].settings()@.sensors == (
    #[trigger] driven[i]).sensors by {
        assert(after[i].settings()@ == driven[i]);
    }
}

/// Whether a fan is not left to the SMC.
pub open spec fn not_auto() -> spec_fn(FanConfigView) -> bool {
    |config: FanConfigView| !config.auto
}

/// The configurations for the fans under control are those without `auto`, each as it is, in their
/// order.
pub proof fn controlled_fans_keep_their_configurations(configs: Seq<FanConfigView>)
    ensures
        tracked_configs(configs) == configs.filter(not_auto()),
        forall|i: int| #![trigger tracked_configs(configs)[i]]
            0 <= i < tracked_configs(configs).len() ==> !tracked_configs(configs)[i].auto
                && configs.contains(tracked_configs(configs)[i]),
        forall|i: int| #![trigger configs[i]]
            0 <= i < configs.len() && !configs[i].auto ==> tracked_configs(configs).contains(
                configs[i],
            ),
    decreases configs.len(),
{
    reveal(Seq::filter);
    if configs.len() > 0 {
        let rest = configs.drop_last();
        let before = tracked_configs(rest);
        let now = tracked_configs(configs);
        controlled_fans_keep_their_configurations(rest);
        assert forall|i: int| #![trigger now[i]] 0 <= i < now.len() implies !now[i].auto
            && configs.contains(now[i]) by {
            if i < before.len() {
                assert(before[i] == now[i]);
                let j = choose|j: int| 0 <= j < rest.len() && rest[j] == before[i];
                assert(configs[j] == now[i]);
            } else {
                assert(configs[configs.len() - 1] == now[i]);
            }
        }
        assert forall|i: int| #![trigger configs[i]]
            0 <= i < configs.len() && !configs[i].auto implies now.contains(configs[i]) by {
            if i < rest.len() {
                assert(rest[i] == configs[i]);
                let j = choose|j: int| 0 <= j < before.len() && before[j] == rest[i];
                assert(now[j] == configs[i]);
            } else {
                assert(now[now.len() - 1] == configs[i]);
            }
        }
    }
}

/// A reload that is done gives the fans under control the new configurations without `auto`, each
/// fan the one at its place, with every value in it; and leaves everything else of a fan.
pub proof fn reload_gives_each_fan_its_own_configuration(
    r: Result<(), Error>,
    before: Seq<FanController>,
    after: Seq<FanController>,
    was_auto: Seq<bool>,
    configs: Seq<FanConfigView>,
)
    requires
        reload_result(r, before, after, was_auto, configs),
        r is Ok,
    ensures
        ({
            let new = configs.filter(not_auto());
            &&& after.len() == before.len()
            &&& new.len() == before.len()
            &&& forall|i: int| #![trigger after[i]]
                0 <= i < after.len() ==> {
                    &&& after[i].settings()@ == new[i]
                    &&& after[i].settings()@.low_temp == new[i].low_temp
                    &&& after[i].settings()@.high_temp == new[i].high_temp
                    &&& after[i].settings()@.speed_curve == new[i].speed_curve
                    &&& after[i].settings()@.exp_pow == new[i].exp_pow
                    &&& after[i].settings()@.always_full_speed == new[i].always_full_speed
                    &&& after[i].settings()@.sensors == before[i].settings()@.sensors
                    &&& after[i].target_file() == before[i].target_file()
                    &&& after[i].manual_file() == before[i].manual_file()
                    &&& after[i].indices() == before[i].indices()
                    &&& after[i].min() == before[i].min()
                    &&& after[i].max() == before[i].max()
                }
        }),
{
    controlled_fans_keep_their_configurations(configs);
    only_structure_is_refused(before, was_auto, configs);
    let new = tracked_configs(configs);
    assert forall|i: int| #![trigger after[i]] 0 <= i < after.len() implies after[i].settings()@
        == new[i] && new[i].sensors == before[i].settings()@.sensors by {
        assert(before[i].settings()@.sensors == new[i].sensors);
    }
}

/// A reload that is refused leaves every fan as it was.
pub proof fn refused_reload_changes_nothing(
    r: Result<(), Error>,
    before: Seq<FanController>,
    after: Seq<FanController>,
    was_auto: Seq<bool>,
    configs: Seq<FanConfigView>,
)
    requires
        reload_result(r, before, after, was_auto, configs),
        r is Err,
    ensures
        after == before,
        r->Err_0 is ConfigStructureChanged,
{
}

/// The fan that is named in a refusal is the first one that changed, counted from one: among all
/// fans for `auto`, among those under control for the sensors.
pub proof fn refusal_names_the_first_change(
    fans: Seq<FanController>,
    was_auto: Seq<bool>,
    configs: Seq<FanConfigView>,
    k: int,
)
    requires
        configs.len() == was_auto.len(),
    ensures
        0 <= k < configs.len() && configs[k].auto != was_auto[k] && (forall|i: int|
            0 <= i < k ==> (#[trigger] configs[i]).auto == was_auto[i]) ==> structural_change(
            fans,
            was_auto,
            configs,
        ) == Some("auto flag changed at Fan"@ + decimal((k + 1) as nat)),
        (forall|i: int| 0 <= i < configs.len() ==> (#[trigger] configs[i]).auto == was_auto[i])
            && configs.filter(not_auto()).len() == fans.len() && 0 <= k < fans.len()
            && fans[k].settings()@.sensors != configs.filter(not_auto())[k].sensors && (forall|
            i: int,
        |
            0 <= i < k ==> (#[trigger] fans[i]).settings()@.sensors == configs.filter(
                not_auto(),
            )[i].sensors) ==> structural_change(fans, was_auto, configs) == Some(
            "sensors changed at tracked fan #"@ + decimal((k + 1) as nat),
        ),
{
    controlled_fans_keep_their_configurations(configs);
    let new = tracked_configs(configs);
    if 0 <= k < configs.len() && configs[k].auto != was_auto[k] && (forall|i: int|
        0 <= i < k ==> (#[trigger] configs[i]).auto == was_auto[i]) {
        let head = configs.take(k);
        lemma_no_auto_change(was_auto, head);
        assert(configs.take(k + 1).drop_last() =~= head);
        assert forall|i: int| 0 <= i < head.len() implies (#[trigger] head[i]).auto
            == was_auto[i] by {
            assert(configs[i] == head[i]);
        }
        lemma_auto_change_stays(was_auto, configs, k + 1);
    }
    if (forall|i: int| 0 <= i < configs.len() ==> (#[trigger] configs[i]).auto == was_auto[i])
        && new.len() == fans.len() && 0 <= k < fans.len() && fans[k].settings()@.sensors
        != new[k].sensors && (forall|i: int|
        0 <= i < k ==> (#[trigger] fans[i]).settings()@.sensors == new[i].sensors) {
        lemma_no_auto_change(was_auto, configs);
        let head = new.take(k);
        lemma_no_sensor_change(fans, head);
        assert(new.take(k + 1).drop_last() =~= head);
        assert forall|i: int| 0 <= i < head.len() implies fans[i].settings()@.sensors == (
        #[trigger] head[i]).sensors by {
            assert(fans[i].settings()@.sensors == new[i].sensors);
        }
        lemma_sensor_change_stays(fans, new, k + 1);
    }
}

/// Another number of fans is named as such, before anything else; another number of fans under
/// control after a changed `auto`.
pub proof fn refusal_names_another_number_of_fans(
    fans: Seq<FanController>,
    was_auto: Seq<bool>,
    configs: Seq<FanConfigView>,
)
    ensures
        configs.len() != was_auto.len() ==> structural_change(fans, was_auto, configs) == Some(
            "fan count differs"@,
        ),
        configs.len() == was_auto.len() && (forall|i: int|
            0 <= i < configs.len() ==> (#[trigger] configs[i]).auto == was_auto[i])
            && configs.filter(not_auto()).len() != fans.len() ==> structural_change(
            fans,
            was_auto,
            configs,
        ) == Some("tracked fan count differs"@),
{
    controlled_fans_keep_their_configurations(configs);
    lemma_no_auto_change(was_auto, configs);
}

} // verus!
