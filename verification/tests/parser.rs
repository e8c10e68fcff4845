use ableton_cli::error::Error;
use ableton_cli::project::parser::parse;
use ableton_cli::project::TempoSource;

const MIN_PROJECT: &str = r#"<?xml version="1.0" encoding="UTF-8"?>
<Ableton>
  <LiveSet>
<Tracks>
  <AudioTrack Id="1">
    <Name><EffectiveName Value="Track A"/></Name>
    <DeviceChain>
      <MainSequencer>
        <Sample>
          <ArrangerAutomation>
            <Events>
              <AudioClip Id="100" Time="0">
                <CurrentStart Value="0"/>
                <CurrentEnd Value="32"/>
                <Name Value="Clip A"/>
                <SampleRef>
                  <FileRef>
                    <RelativePath Value="Samples/a.wav"/>
                    <Path Value="C:/proj/Samples/a.wav"/>
                    <Name Value="a.wav"/>
                  </FileRef>
                </SampleRef>
              </AudioClip>
            </Events>
          </ArrangerAutomation>
        </Sample>
      </MainSequencer>
    </DeviceChain>
  </AudioTrack>
</Tracks>
<MasterTrack>
  <DeviceChain>
    <Mixer>
      <Tempo>
        <Manual Value="120"/>
        <AutomationTarget Id="8"/>
      </Tempo>
    </Mixer>
  </DeviceChain>
</MasterTrack>
  </LiveSet>
</Ableton>"#;

#[test]
fn parse_minimal_project() {
    let project = parse(MIN_PROJECT).unwrap();
    assert_eq!(project.tempo, TempoSource::Constant { bpm: "120".to_string() });
    assert_eq!(project.audio_tracks.len(), 1);
    let track = &project.audio_tracks[0];
    assert_eq!(track.id, "1");
    assert_eq!(track.name, "Track A");
    assert_eq!(track.clips.len(), 1);
    let clip = &track.clips[0];
    assert_eq!(clip.name, "Clip A");
    assert_eq!(clip.start_beats.parse::<f64>().unwrap(), 0.0);
    assert_eq!(clip.end_beats.parse::<f64>().unwrap(), 32.0);
    assert_eq!(clip.sample.name, "a.wav");
    assert_eq!(
        clip.sample.absolute_path.as_deref(),
        Some("C:/proj/Samples/a.wav")
    );
}

#[test]
fn rejects_non_ableton_root() {
    let xml = "<NotAbleton/>";
    let err = parse(xml).unwrap_err();
    assert!(matches!(err, Error::Malformed(_)));
}

#[test]
fn errors_on_missing_live_set() {
    let xml = "<Ableton/>";
    let err = parse(xml).unwrap_err();
    assert!(matches!(err, Error::MissingElement("LiveSet")));
}

#[test]
fn errors_on_invalid_xml() {
    let err = parse("<<<not xml>>>").unwrap_err();
    assert!(matches!(err, Error::Xml(_)));
}

#[test]
fn parses_tempo_automation_when_envelope_present() {
    let xml = r#"<?xml version="1.0"?>
<Ableton>
  <LiveSet>
<Tracks/>
<MasterTrack>
  <DeviceChain>
    <Mixer>
      <Tempo>
        <Manual Value="120"/>
        <AutomationTarget Id="8"/>
      </Tempo>
    </Mixer>
  </DeviceChain>
  <AutomationEnvelopes>
    <Envelopes>
      <AutomationEnvelope Id="0">
        <EnvelopeTarget><PointeeId Value="8"/></EnvelopeTarget>
        <Automation>
          <Events>
            <FloatEvent Id="0" Time="-63072000" Value="120"/>
            <FloatEvent Id="1" Time="100" Value="140"/>
          </Events>
        </Automation>
      </AutomationEnvelope>
    </Envelopes>
  </AutomationEnvelopes>
</MasterTrack>
  </LiveSet>
</Ableton>"#;
    let project = parse(xml).unwrap();
    assert!(matches!(project.tempo, TempoSource::Automated { .. }));
}

#[test]
fn ignores_unrelated_envelope() {
    // Envelope target points elsewhere → falls back to constant tempo.
    let xml = r#"<?xml version="1.0"?>
<Ableton>
  <LiveSet>
<Tracks/>
<MasterTrack>
  <DeviceChain>
    <Mixer>
      <Tempo>
        <Manual Value="100"/>
        <AutomationTarget Id="8"/>
      </Tempo>
    </Mixer>
  </DeviceChain>
  <AutomationEnvelopes>
    <Envelopes>
      <AutomationEnvelope Id="0">
        <EnvelopeTarget><PointeeId Value="999"/></EnvelopeTarget>
        <Automation><Events><FloatEvent Id="0" Time="0" Value="50"/></Events></Automation>
      </AutomationEnvelope>
    </Envelopes>
  </AutomationEnvelopes>
</MasterTrack>
  </LiveSet>
</Ableton>"#;
    let project = parse(xml).unwrap();
    assert_eq!(project.tempo, TempoSource::Constant { bpm: "100".to_string() });
}

#[test]
fn skips_non_audio_tracks() {
    let xml = r#"<?xml version="1.0"?>
<Ableton>
  <LiveSet>
<Tracks>
  <ReturnTrack Id="2"/>
  <MidiTrack Id="3"/>
</Tracks>
<MasterTrack>
  <DeviceChain>
    <Mixer>
      <Tempo><Manual Value="120"/></Tempo>
    </Mixer>
  </DeviceChain>
</MasterTrack>
  </LiveSet>
</Ableton>"#;
    let project = parse(xml).unwrap();
    assert!(project.audio_tracks.is_empty());
}

#[test]
fn audio_track_with_no_device_chain_yields_no_clips() {
    let xml = r#"<?xml version="1.0"?>
<Ableton><LiveSet>
  <Tracks>
<AudioTrack Id="1"><Name><EffectiveName Value="t"/></Name></AudioTrack>
  </Tracks>
  <MasterTrack><DeviceChain><Mixer><Tempo><Manual Value="120"/></Tempo></Mixer></DeviceChain></MasterTrack>
</LiveSet></Ableton>"#;
    let project = parse(xml).unwrap();
    assert_eq!(project.audio_tracks.len(), 1);
    assert!(project.audio_tracks[0].clips.is_empty());
}

#[test]
fn audio_track_missing_intermediate_nodes_yields_no_clips() {
    // DeviceChain present but MainSequencer absent. Same applies for the
    // deeper missing-node paths; we just want to exercise the early-exit.
    let xml = r#"<?xml version="1.0"?>
<Ableton><LiveSet>
  <Tracks>
<AudioTrack Id="1">
  <Name><EffectiveName Value="t"/></Name>
  <DeviceChain/>
</AudioTrack>
  </Tracks>
  <MasterTrack><DeviceChain><Mixer><Tempo><Manual Value="120"/></Tempo></Mixer></DeviceChain></MasterTrack>
</LiveSet></Ableton>"#;
    let project = parse(xml).unwrap();
    assert!(project.audio_tracks[0].clips.is_empty());
}

#[test]
fn ignores_non_envelope_siblings_and_non_float_events() {
    // The Envelopes block contains a non-AutomationEnvelope child, and the
    // matching envelope's Events block contains a non-FloatEvent child.
    let xml = r#"<?xml version="1.0"?>
<Ableton><LiveSet>
  <Tracks/>
  <MasterTrack>
<DeviceChain><Mixer><Tempo><Manual Value="100"/><AutomationTarget Id="8"/></Tempo></Mixer></DeviceChain>
<AutomationEnvelopes>
  <Envelopes>
    <Decoy/>
    <AutomationEnvelope Id="0">
      <EnvelopeTarget><PointeeId Value="8"/></EnvelopeTarget>
      <Automation>
        <Events>
          <NotAFloatEvent Time="0" Value="1"/>
          <FloatEvent Time="0" Value="100"/>
          <FloatEvent Time="50" Value="120"/>
        </Events>
      </Automation>
    </AutomationEnvelope>
  </Envelopes>
</AutomationEnvelopes>
  </MasterTrack>
</LiveSet></Ableton>"#;
    let project = parse(xml).unwrap();
    assert!(matches!(project.tempo, TempoSource::Automated { .. }));
}

#[test]
fn envelope_present_but_envelopes_missing_falls_back_to_constant() {
    let xml = r#"<?xml version="1.0"?>
<Ableton><LiveSet>
  <Tracks/>
  <MasterTrack>
<DeviceChain><Mixer><Tempo><Manual Value="123"/><AutomationTarget Id="8"/></Tempo></Mixer></DeviceChain>
<AutomationEnvelopes/>
  </MasterTrack>
</LiveSet></Ableton>"#;
    let project = parse(xml).unwrap();
    assert_eq!(project.tempo, TempoSource::Constant { bpm: "123".to_string() });
}

#[test]
fn non_audio_clip_event_children_are_skipped() {
    let xml = r#"<?xml version="1.0"?>
<Ableton><LiveSet>
  <Tracks>
<AudioTrack Id="1">
  <Name><EffectiveName Value="t"/></Name>
  <DeviceChain><MainSequencer><Sample><ArrangerAutomation><Events>
    <NotAClip/>
    <AudioClip Id="1" Time="0">
      <CurrentStart Value="0"/>
      <CurrentEnd Value="4"/>
      <Name Value="ok"/>
      <SampleRef><FileRef><Path Value="/x.wav"/><Name Value="x.wav"/></FileRef></SampleRef>
    </AudioClip>
  </Events></ArrangerAutomation></Sample></MainSequencer></DeviceChain>
</AudioTrack>
  </Tracks>
  <MasterTrack><DeviceChain><Mixer><Tempo><Manual Value="120"/></Tempo></Mixer></DeviceChain></MasterTrack>
</LiveSet></Ableton>"#;
    let project = parse(xml).unwrap();
    assert_eq!(project.audio_tracks[0].clips.len(), 1);
}

#[test]
fn all_sample_refs_collects_clip_and_non_clip_refs() {
    // One SampleRef is on a clip, one lives under a non-clip device
    // (a faux Sampler) — the descendants pass should pick up both.
    let xml = r#"<?xml version="1.0"?>
<Ableton><LiveSet>
  <Tracks>
<AudioTrack Id="1">
  <Name><EffectiveName Value="t"/></Name>
  <DeviceChain><MainSequencer><Sample><ArrangerAutomation><Events>
    <AudioClip Id="1" Time="0">
      <CurrentStart Value="0"/>
      <CurrentEnd Value="4"/>
      <Name Value="c"/>
      <SampleRef><FileRef><Path Value="/clip.wav"/><Name Value="clip.wav"/></FileRef></SampleRef>
    </AudioClip>
  </Events></ArrangerAutomation></Sample></MainSequencer></DeviceChain>
</AudioTrack>
<MidiTrack Id="2">
  <DeviceChain><Devices><MultiSampler>
    <Player><MultiSampleMap><SampleParts><MultiSamplePart>
      <SampleRef><FileRef><Path Value="/inst.wav"/><Name Value="inst.wav"/></FileRef></SampleRef>
    </MultiSamplePart></SampleParts></MultiSampleMap></Player>
  </MultiSampler></Devices></DeviceChain>
</MidiTrack>
  </Tracks>
  <MasterTrack><DeviceChain><Mixer><Tempo><Manual Value="120"/></Tempo></Mixer></DeviceChain></MasterTrack>
</LiveSet></Ableton>"#;
    let project = parse(xml).unwrap();
    let identities: Vec<&str> = project
        .all_sample_refs
        .iter()
        .map(|s| s.identity())
        .collect();
    assert!(identities.contains(&"/clip.wav"));
    assert!(identities.contains(&"/inst.wav"));
    assert_eq!(project.all_sample_refs.len(), 2);
}

#[test]
fn all_sample_refs_dedupes_by_identity() {
    // Same SampleRef appears in two places — should only appear once.
    let xml = r#"<?xml version="1.0"?>
<Ableton><LiveSet>
  <Tracks>
<AudioTrack Id="1">
  <Name><EffectiveName Value="t"/></Name>
  <DeviceChain><MainSequencer><Sample><ArrangerAutomation><Events>
    <AudioClip Id="1" Time="0">
      <CurrentStart Value="0"/><CurrentEnd Value="4"/>
      <SampleRef><FileRef><Path Value="/dup.wav"/><Name Value="dup.wav"/></FileRef></SampleRef>
    </AudioClip>
    <AudioClip Id="2" Time="8">
      <CurrentStart Value="8"/><CurrentEnd Value="12"/>
      <SampleRef><FileRef><Path Value="/dup.wav"/><Name Value="dup.wav"/></FileRef></SampleRef>
    </AudioClip>
  </Events></ArrangerAutomation></Sample></MainSequencer></DeviceChain>
</AudioTrack>
  </Tracks>
  <MasterTrack><DeviceChain><Mixer><Tempo><Manual Value="120"/></Tempo></Mixer></DeviceChain></MasterTrack>
</LiveSet></Ableton>"#;
    let project = parse(xml).unwrap();
    assert_eq!(project.all_sample_refs.len(), 1);
    assert_eq!(project.all_sample_refs[0].identity(), "/dup.wav");
}

#[test]
fn all_sample_refs_skips_node_with_no_file_ref() {
    // A bare <SampleRef/> with no FileRef child should be silently skipped.
    let xml = r#"<?xml version="1.0"?>
<Ableton><LiveSet>
  <Tracks>
<AudioTrack Id="1">
  <Name><EffectiveName Value="t"/></Name>
  <DeviceChain><MainSequencer><Sample><ArrangerAutomation><Events>
    <AudioClip Id="1" Time="0">
      <CurrentStart Value="0"/><CurrentEnd Value="4"/>
      <SampleRef><FileRef><Path Value="/ok.wav"/><Name Value="ok.wav"/></FileRef></SampleRef>
    </AudioClip>
  </Events></ArrangerAutomation></Sample></MainSequencer></DeviceChain>
</AudioTrack>
<MidiTrack Id="2">
  <DeviceChain><Devices><Sampler><SampleRef/></Sampler></Devices></DeviceChain>
</MidiTrack>
  </Tracks>
  <MasterTrack><DeviceChain><Mixer><Tempo><Manual Value="120"/></Tempo></Mixer></DeviceChain></MasterTrack>
</LiveSet></Ableton>"#;
    let project = parse(xml).unwrap();
    assert_eq!(project.all_sample_refs.len(), 1);
    assert_eq!(project.all_sample_refs[0].identity(), "/ok.wav");
}

#[test]
fn falls_back_to_path_basename_when_name_missing() {
    let xml = r#"<?xml version="1.0"?>
<Ableton><LiveSet>
  <Tracks>
<AudioTrack Id="1">
  <Name><EffectiveName Value="t"/></Name>
  <DeviceChain><MainSequencer><Sample><ArrangerAutomation><Events>
    <AudioClip Id="1" Time="0">
      <CurrentStart Value="0"/>
      <CurrentEnd Value="4"/>
      <SampleRef>
        <FileRef>
          <Path Value="C:/proj/sub/named.wav"/>
        </FileRef>
      </SampleRef>
    </AudioClip>
  </Events></ArrangerAutomation></Sample></MainSequencer></DeviceChain>
</AudioTrack>
  </Tracks>
  <MasterTrack><DeviceChain><Mixer><Tempo><Manual Value="120"/></Tempo></Mixer></DeviceChain></MasterTrack>
</LiveSet></Ableton>"#;
    let project = parse(xml).unwrap();
    let clip = &project.audio_tracks[0].clips[0];
    assert_eq!(clip.sample.name, "named.wav");
}


fn wrap_live_set(tracks: &str, tempo: &str) -> String {
    format!(
        r#"<?xml version="1.0"?>
<Ableton><LiveSet>
  <Tracks>{tracks}</Tracks>
  <MasterTrack><DeviceChain><Mixer><Tempo>{tempo}</Tempo></Mixer></DeviceChain></MasterTrack>
</LiveSet></Ableton>"#
    )
}

fn one_clip_track(clip_body: &str) -> String {
    format!(
        r#"<AudioTrack Id="7"><DeviceChain><MainSequencer><Sample><ArrangerAutomation><Events>
        <AudioClip Id="1" Time="0">{clip_body}</AudioClip>
      </Events></ArrangerAutomation></Sample></MainSequencer></DeviceChain></AudioTrack>"#
    )
}

#[test]
fn invalid_manual_tempo_is_malformed_with_parser_message() {
    let xml = wrap_live_set("", r#"<Manual Value="fast"/>"#);
    let err = parse(&xml).unwrap_err();
    assert_eq!(
        err,
        Error::Malformed("invalid tempo Manual value: invalid float literal".to_string())
    );
}

#[test]
fn empty_manual_tempo_reports_empty_string() {
    let xml = wrap_live_set("", r#"<Manual Value=""/>"#);
    let err = parse(&xml).unwrap_err();
    assert_eq!(
        err,
        Error::Malformed(
            "invalid tempo Manual value: cannot parse float from empty string".to_string()
        )
    );
}

#[test]
fn missing_master_track_parts_name_the_missing_element() {
    let xml = r#"<Ableton><LiveSet><Tracks/><MasterTrack><DeviceChain/></MasterTrack></LiveSet></Ableton>"#;
    assert_eq!(
        parse(xml).unwrap_err(),
        Error::MissingElement("MasterTrack/DeviceChain/Mixer")
    );
    let xml = r#"<Ableton><LiveSet><Tracks/></LiveSet></Ableton>"#;
    assert_eq!(parse(xml).unwrap_err(), Error::MissingElement("MasterTrack"));
    let xml = wrap_live_set("", "");
    assert_eq!(parse(&xml).unwrap_err(), Error::MissingElement("Tempo/Manual"));
}

#[test]
fn missing_tracks_is_reported() {
    let xml = r#"<Ableton><LiveSet><MasterTrack><DeviceChain><Mixer><Tempo><Manual Value="1"/></Tempo></Mixer></DeviceChain></MasterTrack></LiveSet></Ableton>"#;
    assert_eq!(parse(xml).unwrap_err(), Error::MissingElement("Tracks"));
}

#[test]
fn clip_errors_name_the_missing_piece() {
    let tempo = r#"<Manual Value="120"/>"#;
    let xml = wrap_live_set(&one_clip_track(r#"<CurrentEnd Value="4"/>"#), tempo);
    assert_eq!(parse(&xml).unwrap_err(), Error::MissingElement("AudioClip/CurrentStart"));

    let xml = wrap_live_set(&one_clip_track(r#"<CurrentStart Value="x"/>"#), tempo);
    assert_eq!(
        parse(&xml).unwrap_err(),
        Error::Malformed("invalid CurrentStart: invalid float literal".to_string())
    );

    let xml = wrap_live_set(&one_clip_track(r#"<CurrentStart Value="0"/>"#), tempo);
    assert_eq!(parse(&xml).unwrap_err(), Error::MissingElement("AudioClip/CurrentEnd"));

    let xml = wrap_live_set(
        &one_clip_track(r#"<CurrentStart Value="0"/><CurrentEnd Value="1e"/>"#),
        tempo,
    );
    assert_eq!(
        parse(&xml).unwrap_err(),
        Error::Malformed("invalid CurrentEnd: invalid float literal".to_string())
    );

    let xml = wrap_live_set(
        &one_clip_track(r#"<CurrentStart Value="0"/><CurrentEnd Value="4"/>"#),
        tempo,
    );
    assert_eq!(parse(&xml).unwrap_err(), Error::MissingElement("AudioClip/SampleRef"));

    let xml = wrap_live_set(
        &one_clip_track(r#"<CurrentStart Value="0"/><CurrentEnd Value="4"/><SampleRef/>"#),
        tempo,
    );
    assert_eq!(parse(&xml).unwrap_err(), Error::MissingElement("SampleRef/FileRef"));
}

#[test]
fn clip_fields_and_sample_paths_are_read() {
    let body = r#"<CurrentStart Value="-1.5e1"/><CurrentEnd Value=".5"/>
        <SampleRef><FileRef><RelativePath Value="Samples/kick.wav"/><Path Value=""/></FileRef></SampleRef>"#;
    let xml = wrap_live_set(&one_clip_track(body), r#"<Manual Value="+98.25"/>"#);
    let project = parse(&xml).unwrap();
    assert_eq!(project.tempo, TempoSource::Constant { bpm: "+98.25".to_string() });
    let track = &project.audio_tracks[0];
    assert_eq!(track.id, "7");
    assert_eq!(track.name, "");
    let clip = &track.clips[0];
    assert_eq!(clip.name, "");
    assert_eq!(clip.start_beats, "-1.5e1");
    assert_eq!(clip.end_beats, ".5");
    // An empty Path is treated as absent; the name falls back to the
    // relative path's file name.
    assert_eq!(clip.sample.absolute_path, None);
    assert_eq!(clip.sample.relative_path.as_deref(), Some("Samples/kick.wav"));
    assert_eq!(clip.sample.name, "kick.wav");
    assert_eq!(project.all_sample_refs.len(), 1);
}

#[test]
fn tempo_automation_events_are_collected_in_order() {
    let xml = r#"<Ableton><LiveSet><Tracks/>
  <MasterTrack>
    <DeviceChain><Mixer><Tempo><Manual Value="100"/><AutomationTarget Id="8"/></Tempo></Mixer></DeviceChain>
    <AutomationEnvelopes><Envelopes>
      <AutomationEnvelope Id="0">
        <EnvelopeTarget><PointeeId Value="8"/></EnvelopeTarget>
        <Automation><Events>
          <FloatEvent Time="-63072000" Value="90"/>
          <FloatEvent Time="16" Value="128"/>
        </Events></Automation>
      </AutomationEnvelope>
    </Envelopes></AutomationEnvelopes>
  </MasterTrack>
</LiveSet></Ableton>"#;
    let project = parse(xml).unwrap();
    match project.tempo {
        TempoSource::Automated { events, fallback_bpm } => {
            assert_eq!(fallback_bpm, "100");
            let pairs: Vec<(String, String)> =
                events.into_iter().map(|e| (e.beat, e.bpm)).collect();
            assert_eq!(
                pairs,
                vec![
                    ("-63072000".to_string(), "90".to_string()),
                    ("16".to_string(), "128".to_string())
                ]
            );
        }
        other => panic!("expected automation, got {other:?}"),
    }
}

#[test]
fn envelope_without_automation_events_gives_no_points() {
    let xml = r#"<Ableton><LiveSet><Tracks/>
  <MasterTrack>
    <DeviceChain><Mixer><Tempo><Manual Value="100"/><AutomationTarget Id="8"/></Tempo></Mixer></DeviceChain>
    <AutomationEnvelopes><Envelopes>
      <AutomationEnvelope><EnvelopeTarget><PointeeId Value="8"/></EnvelopeTarget><Events/></AutomationEnvelope>
    </Envelopes></AutomationEnvelopes>
  </MasterTrack>
</LiveSet></Ableton>"#;
    let project = parse(xml).unwrap();
    assert_eq!(
        project.tempo,
        TempoSource::Automated { events: vec![], fallback_bpm: "100".to_string() }
    );
}

#[test]
fn float_event_without_time_is_malformed() {
    let xml = r#"<Ableton><LiveSet><Tracks/>
  <MasterTrack>
    <DeviceChain><Mixer><Tempo><Manual Value="100"/><AutomationTarget Id="8"/></Tempo></Mixer></DeviceChain>
    <AutomationEnvelopes><Envelopes>
      <AutomationEnvelope><EnvelopeTarget><PointeeId Value="8"/></EnvelopeTarget>
        <Automation><Events><FloatEvent Value="1"/></Events></Automation></AutomationEnvelope>
    </Envelopes></AutomationEnvelopes>
  </MasterTrack>
</LiveSet></Ableton>"#;
    assert_eq!(
        parse(xml).unwrap_err(),
        Error::Malformed("FloatEvent missing Time".to_string())
    );
    let xml = xml.replace(r#"<FloatEvent Value="1"/>"#, r#"<FloatEvent Time="0" Value="abc"/>"#);
    assert_eq!(
        parse(&xml).unwrap_err(),
        Error::Malformed("FloatEvent missing Value".to_string())
    );
}

#[test]
fn non_ableton_root_message_names_the_root() {
    assert_eq!(
        parse("<Other/>").unwrap_err(),
        Error::Malformed("expected root <Ableton>, got <Other>".to_string())
    );
}
