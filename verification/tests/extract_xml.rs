//! The XML readers: events, Maven, MyBatis, Dubbo and Spring.
use codeatlas::extract::xmlutil::{
    attrs, comment_doc, events, is_text, local, qname, raw_events, text_of, XmlEvent,
};
use codeatlas::extract::{dubbo_xml, maven, mybatis, spring};
use codeatlas::store::model::TableOp;

#[test]
fn extracts_services_with_config_and_comment() {
    let xml = r#"<beans xmlns:dubbo="http://dubbo.apache.org/schema/dubbo">
  <dubbo:provider filter="traceFilter" retries="0"/>
  <dubbo:service interface="com.yaoex.promotion.dubbo.service.interfaces.PromotionDubboService" ref="iPromotionDubboService" timeout="3000" retries="0"/>
  <!-- 限购活动dubbo接口 -->
  <dubbo:service interface="com.yaoex.a.IProductLimitBuyDubboService" ref="iProductLimitBuyDubboService" timeout="3000" retries="0"/>
</beans>"#;
    let d = dubbo_xml::parse(xml).unwrap();
    assert_eq!(d.services.len(), 2);
    assert_eq!(d.services[0].reference.as_deref(), Some("iPromotionDubboService"));
    assert_eq!(d.services[0].timeout.as_deref(), Some("3000"));
    assert!(d.services[0].doc.is_none());
    assert_eq!(d.services[1].doc.as_deref(), Some("限购活动dubbo接口"));
}

#[test]
fn skips_commented_out_services() {
    let xml = r#"<beans xmlns:dubbo="http://dubbo.apache.org/schema/dubbo">
  <!--<dubbo:service interface="com.yaoex.a.IPinTuanDubboManageService" ref="x" timeout="50000"/>-->
  <dubbo:service interface="com.yaoex.a.Live" ref="y"/>
</beans>"#;
    let d = dubbo_xml::parse(xml).unwrap();
    assert_eq!(d.services.len(), 1);
    assert_eq!(d.services[0].interface, "com.yaoex.a.Live");
    // The commented-out XML must not be mistaken for the live service's doc.
    assert!(d.services[0].doc.is_none());
}

#[test]
fn extracts_consumer_references() {
    let xml = r#"<beans xmlns:dubbo="http://dubbo.apache.org/schema/dubbo">
  <!--用户中心-->
  <dubbo:reference id="userService" interface="com.yaoex.user.UserService"/>
</beans>"#;
    let d = dubbo_xml::parse(xml).unwrap();
    assert_eq!(d.references.len(), 1);
    assert_eq!(d.references[0].bean_id.as_deref(), Some("userService"));
    assert_eq!(d.references[0].doc.as_deref(), Some("用户中心"));
}

#[test]
fn reads_aggregator_modules_and_own_coordinates() {
    let xml = r#"<project>
  <groupId>com.yaoex</groupId>
  <artifactId>promotion</artifactId>
  <version>1.2-SNAPSHOT</version>
  <packaging>pom</packaging>
  <modules>
    <module>promotion-common</module>
    <module>promotion-model</module>
  </modules>
</project>"#;
    let p = maven::parse(xml).unwrap();
    assert_eq!(p.artifact_id.as_deref(), Some("promotion"));
    assert_eq!(p.group_id.as_deref(), Some("com.yaoex"));
    assert_eq!(p.packaging.as_deref(), Some("pom"));
    assert_eq!(p.modules, vec!["promotion-common", "promotion-model"]);
}

#[test]
fn dependency_coordinates_do_not_shadow_project_ones() {
    let xml = r#"<project>
  <artifactId>promotion-service</artifactId>
  <dependencies>
    <dependency>
      <groupId>org.apache.dubbo</groupId>
      <artifactId>dubbo</artifactId>
      <version>2.7.8</version>
    </dependency>
    <dependency>
      <groupId>com.baomidou</groupId>
      <artifactId>mybatis-plus</artifactId>
      <version>2.3.3</version>
    </dependency>
  </dependencies>
</project>"#;
    let p = maven::parse(xml).unwrap();
    assert_eq!(p.artifact_id.as_deref(), Some("promotion-service"));
    assert_eq!(
        p.dependencies,
        vec!["com.baomidou:mybatis-plus", "org.apache.dubbo:dubbo"]
    );
}

#[test]
fn ignores_exclusion_coordinates() {
    let xml = r#"<project>
  <artifactId>a</artifactId>
  <dependencies>
    <dependency>
      <groupId>g</groupId><artifactId>a1</artifactId>
      <exclusions><exclusion><groupId>*</groupId><artifactId>*</artifactId></exclusion></exclusions>
    </dependency>
  </dependencies>
</project>"#;
    let p = maven::parse(xml).unwrap();
    // The exclusion's `*:*` must not become a dependency of its own; the
    // parent dependency is still recorded.
    assert!(p.dependencies.contains(&"g:a1".to_string()));
    assert!(!p.dependencies.iter().any(|d| d.contains('*')));
}

const SAMPLE: &str = r#"<?xml version="1.0" encoding="UTF-8"?>
<!DOCTYPE mapper PUBLIC "-//mybatis.org//DTD Mapper 3.0//EN" "http://mybatis.org/dtd/mybatis-3-mapper.dtd">
<mapper namespace="com.yaoex.promotion.persistence.interfaces.defective.DefectiveDao">
    <resultMap type="com.yaoex.promotion.model.defective.DefectivePO" id="DefectiveMap">
        <id property="id" column="id"/>
        <result property="enterpriseId" column="enterprise_id"/>
        <result property="promotionName" column="promotion_name"/>
    </resultMap>
    <sql id="Base_Column_List">id, enterprise_id, promotion_name</sql>
    <select id="queryPromotionPage" resultMap="DefectiveMap">
        SELECT <include refid="Base_Column_List"/>
        FROM t_promotion_defective t1
        <if test="groupCode != null">
            left join t_promotion_defective_group t2 on t1.id=t2.promotion_id
        </if>
        <where>
            <if test="startTime == null and endTime !=null">
                <![CDATA[and t1.begin_time<=#{endTime} ]]>
            </if>
        </where>
    </select>
    <insert id="save">insert into t_promotion_defective (enterprise_id) values (#{enterpriseId})</insert>
    <update id="cancel">update t_promotion_defective set status = 1 where id = #{id}</update>
</mapper>"#;

#[test]
fn reads_namespace_result_map_and_pk() {
    let m = mybatis::parse(SAMPLE).unwrap();
    assert_eq!(
        m.namespace.as_deref(),
        Some("com.yaoex.promotion.persistence.interfaces.defective.DefectiveDao")
    );
    assert_eq!(m.result_maps.len(), 1);
    let rm = &m.result_maps[0];
    assert_eq!(rm.id, "DefectiveMap");
    assert_eq!(rm.type_fqn.as_deref(), Some("com.yaoex.promotion.model.defective.DefectivePO"));
    assert_eq!(rm.mappings.len(), 3);
    assert!(rm.mappings[0].is_pk);
    assert_eq!(rm.mappings[1].column, "enterprise_id");
    assert_eq!(rm.mappings[1].property, "enterpriseId");
}

#[test]
fn statements_carry_tables_and_ops() {
    let m = mybatis::parse(SAMPLE).unwrap();
    let ids: Vec<&str> = m.statements.iter().map(|s| s.id.as_str()).collect();
    assert_eq!(ids, vec!["queryPromotionPage", "save", "cancel"]);

    let q = &m.statements[0];
    assert_eq!(q.tag, "select");
    assert_eq!(q.result_map.as_deref(), Some("DefectiveMap"));
    let mut names: Vec<&str> = q.tables.iter().map(|(t, _)| t.as_str()).collect();
    names.sort();
    assert_eq!(names, vec!["t_promotion_defective", "t_promotion_defective_group"]);

    assert_eq!(
        m.statements[1].tables,
        vec![("t_promotion_defective".to_string(), TableOp::Insert)]
    );
    assert_eq!(
        m.statements[2].tables,
        vec![("t_promotion_defective".to_string(), TableOp::Update)]
    );
}

#[test]
fn result_map_maps_to_its_single_read_table() {
    let m = mybatis::parse(SAMPLE).unwrap();
    // queryPromotionPage reads two tables, so the single-table rule does not
    // apply and we fall back to the first read table.
    assert_eq!(
        m.table_for_result_map("DefectiveMap").as_deref(),
        Some("t_promotion_defective")
    );
}

#[test]
fn single_table_select_binds_result_map_exactly() {
    let xml = r#"<mapper namespace="a.B">
          <resultMap type="a.P" id="M"><result property="x" column="x"/></resultMap>
          <select id="one" resultMap="M">select x from t_only where id=#{id}</select>
        </mapper>"#;
    let m = mybatis::parse(xml).unwrap();
    assert_eq!(m.table_for_result_map("M").as_deref(), Some("t_only"));
}

#[test]
fn fragments_are_inlined_so_their_tables_count() {
    let xml = r#"<mapper namespace="a.B">
          <sql id="joins">left join t_extra e on e.id = t.id</sql>
          <select id="q">select * from t_main t <include refid="joins"/></select>
        </mapper>"#;
    let m = mybatis::parse(xml).unwrap();
    let mut names: Vec<&str> = m.statements[0].tables.iter().map(|(t, _)| t.as_str()).collect();
    names.sort();
    assert_eq!(names, vec!["t_extra", "t_main"]);
}

#[test]
fn aggregate_tables_dedupe_across_statements() {
    let m = mybatis::parse(SAMPLE).unwrap();
    let tables = m.tables();
    let defective: Vec<_> = tables
        .iter()
        .filter(|(t, _)| t == "t_promotion_defective")
        .map(|(_, op)| *op)
        .collect();
    assert!(defective.contains(&TableOp::Select));
    assert!(defective.contains(&TableOp::Insert));
    assert!(defective.contains(&TableOp::Update));
}

#[test]
fn pairs_listener_class_with_consumer_topic() {
    let xml = r#"<beans>
  <bean id="couponAuditListener" class="com.yaoex.promotion.service.listener.CouponAuditOnsMessageListener">
    <property name="type" value="ons"/>
  </bean>
  <bean id="couponAuditConsumer" class="com.yaoex.mq.Consumer">
    <property name="topic" value="${couponAuditConsumer.mq.topic}"/>
    <property name="messageListener" ref="couponAuditListener"/>
  </bean>
</beans>"#;
    let s = spring::parse(xml).unwrap();
    assert_eq!(s.beans.len(), 2);
    let b = s.mq_bindings();
    assert_eq!(
        b,
        vec![(
            "com.yaoex.promotion.service.listener.CouponAuditOnsMessageListener".to_string(),
            "${couponAuditConsumer.mq.topic}".to_string()
        )]
    );
}

#[test]
fn reads_component_scan_packages() {
    let xml = r#"<beans xmlns:context="http://www.springframework.org/schema/context">
  <!-- 配置01、JobHandler 扫描路径 -->
  <context:component-scan base-package="com.yaoex.promotion.job"/>
</beans>"#;
    let s = spring::parse(xml).unwrap();
    assert_eq!(s.scan_packages, vec!["com.yaoex.promotion.job"]);
}

#[test]
fn captures_bean_comment_as_doc() {
    let xml = r#"<beans>
  <!--天降红包数量重置-->
  <bean id="redPacketJobService" class="com.x.RedPacketJobServiceImpl"/>
</beans>"#;
    let s = spring::parse(xml).unwrap();
    assert_eq!(s.beans[0].doc.as_deref(), Some("天降红包数量重置"));
}

/// Concatenate every character-data event, the way the body accumulators do.
fn collect(xml: &str) -> String {
    let mut out = String::new();
    for ev in raw_events(xml) {
        if is_text(&ev) {
            if let Some(t) = text_of(&ev) {
                out.push_str(&t);
            }
        }
    }
    out
}

#[test]
fn entity_refs_rejoin_the_text_stream() {
    // `&lt;` arrives as its own GeneralRef event; dropping it would corrupt
    // the SQL comparison operators that mapper bodies are full of.
    assert_eq!(collect("<a>and t.begin_time &lt;= 1</a>"), "and t.begin_time <= 1");
    assert_eq!(collect("<a>a &amp;&amp; b</a>"), "a && b");
}

#[test]
fn cdata_is_literal() {
    assert_eq!(collect("<b><![CDATA[y <= 2]]></b>"), "y <= 2");
}

#[test]
fn char_refs_resolve() {
    assert_eq!(collect("<a>&#60;&#x3E;</a>"), "<>");
}

#[test]
fn unknown_entity_keeps_source_form() {
    assert_eq!(collect("<a>&nbsp;</a>"), "&nbsp;");
}

#[test]
fn comment_rejects_markup() {
    assert!(comment_doc("<dubbo:service interface=\"x\"/>").is_none());
    assert_eq!(comment_doc(" 限购活动dubbo接口 ").as_deref(), Some("限购活动dubbo接口"));
}

// Decoding

#[test]
fn attributes_are_decoded() {
    let a = attrs(r#" id="x" sql='a &lt; b'"#);
    assert_eq!(a.len(), 2);
    assert_eq!(a.get("id").unwrap(), "x");
    assert_eq!(a.get("sql").unwrap(), "a < b");
}

#[test]
fn events_name_tags_and_their_attributes() {
    let evs = events(r#"<a:b k="1"><c/>t &amp;<!-- n --></a:b>"#);
    match &evs[0] {
        XmlEvent::Start(t) => {
            assert_eq!(t.name, "a:b");
            assert_eq!(t.attrs.get("k").unwrap(), "1");
        }
        _ => panic!("no start tag"),
    }
    assert!(matches!(&evs[1], XmlEvent::Empty(t) if t.name == "c"));
    assert!(evs.iter().any(|e| matches!(e, XmlEvent::Entity(t) if t == "&")));
    assert!(evs.iter().any(|e| matches!(e, XmlEvent::Comment(t) if t == " n ")));
    assert!(matches!(evs.last().unwrap(), XmlEvent::End(n) if n == "a:b"));
}

#[test]
fn broken_markup_keeps_what_was_read() {
    let m = maven::parse("<project><artifactId>x</artifactId></oops>").unwrap();
    assert_eq!(m.artifact_id.as_deref(), Some("x"));
}

#[test]
fn a_tag_keeps_its_qualified_name() {
    let found = events("<dubbo:service ref=\"x\"/>");
    match &found[0] {
        XmlEvent::Empty(tag) => {
            assert_eq!(qname(tag), "dubbo:service");
            assert_eq!(local(tag), "service");
        }
        _ => panic!("not a tag"),
    }
}
